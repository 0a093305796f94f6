//! Names of nodes: a local part, an optional prefix and an optional namespace.

use vstd::prelude::*;
use crate::error::Error;
use crate::text::{find_char, index_of_char, lemma_find_char, slice_chars, str_eq, clone_opt_string};

verus! {

/// Whether `c` may begin a part of a name. The colon is left out: it separates the parts.
pub open spec fn is_name_start_char(c: char) -> bool {
    let u = c as u32;
    ||| 'A' <= c <= 'Z'
    ||| c == '_'
    ||| 'a' <= c <= 'z'
    ||| 0xC0 <= u <= 0xD6
    ||| 0xD8 <= u <= 0xF6
    ||| 0xF8 <= u <= 0x2FF
    ||| 0x370 <= u <= 0x37D
    ||| 0x37F <= u <= 0x1FFF
    ||| 0x200C <= u <= 0x200D
    ||| 0x2070 <= u <= 0x218F
    ||| 0x2C00 <= u <= 0x2FEF
    ||| 0x3001 <= u <= 0xD7FF
    ||| 0xF900 <= u <= 0xFDCF
    ||| 0xFDF0 <= u <= 0xFFFD
    ||| 0x10000 <= u <= 0xEFFFF
}

/// Whether `c` may stand inside a part of a name.
pub open spec fn is_name_char(c: char) -> bool {
    let u = c as u32;
    ||| is_name_start_char(c)
    ||| c == '-'
    ||| c == '.'
    ||| '0' <= c <= '9'
    ||| u == 0xB7
    ||| 0x300 <= u <= 0x36F
    ||| 0x203F <= u <= 0x2040
}

/// Whether `s` is one part of a name: not empty, well begun, and of name characters throughout.
pub open spec fn is_name_part(s: Seq<char>) -> bool {
    &&& s.len() > 0
    &&& is_name_start_char(s[0])
    &&& forall|i: int| 0 < i < s.len() ==> is_name_char(#[trigger] s[i])
}

/// What is wrong with `s` as a part of a name, if anything.
pub open spec fn part_error(s: Seq<char>) -> Option<Error> {
    if s.len() == 0 {
        Some(Error::Syntax)
    } else if !is_name_part(s) {
        Some(Error::InvalidCharacter)
    } else {
        None
    }
}

/// The mathematical value of a [`Name`].
pub struct NameView {
    pub namespace_uri: Option<Seq<char>>,
    pub prefix: Option<Seq<char>>,
    pub local_name: Seq<char>,
}

impl NameView {
    /// The name as it is written in markup: the local part, after the prefix and a colon
    /// if there is a prefix.
    pub open spec fn qualified(self) -> Seq<char> {
        match self.prefix {
            None => self.local_name,
            Some(p) => p + seq![':'] + self.local_name,
        }
    }

    /// Equality of names as keys: the prefixes agree and the local parts agree.
    pub open spec fn same_key(self, other: NameView) -> bool {
        self.prefix == other.prefix && self.local_name == other.local_name
    }

    /// Whether the name declares a namespace: it is `xmlns` itself or has the prefix `xmlns`.
    pub open spec fn is_namespace_declaration(self) -> bool {
        match self.prefix {
            Some(p) => p == "xmlns"@,
            None => self.local_name == "xmlns"@,
        }
    }

    /// The prefix that a namespace declaration of this name binds: the local part behind
    /// `xmlns:`, or none for the default namespace.
    pub open spec fn declared_prefix(self) -> Option<Seq<char>> {
        match self.prefix {
            Some(_) => Some(self.local_name),
            None => None,
        }
    }
}

/// The outcome of reading `q` as a name with an optional prefix.
///
/// An empty string, an empty part and a second colon are errors of syntax; a part that is
/// not empty but holds a character out of place is an invalid character.
pub open spec fn parse_name(q: Seq<char>) -> Result<NameView, Error> {
    let k = find_char(q, ':', 0);
    if q.len() == 0 {
        Err(Error::Syntax)
    } else if k == q.len() {
        match part_error(q) {
            Some(e) => Err(e),
            None => Ok(NameView { namespace_uri: None, prefix: None, local_name: q }),
        }
    } else {
        let prefix = q.subrange(0, k);
        let local = q.subrange(k + 1, q.len() as int);
        if find_char(local, ':', 0) < local.len() {
            Err(Error::Syntax)
        } else {
            match part_error(prefix) {
                Some(e) => Err(e),
                None => match part_error(local) {
                    Some(e) => Err(e),
                    None => Ok(
                        NameView { namespace_uri: None, prefix: Some(prefix), local_name: local },
                    ),
                },
            }
        }
    }
}

/// The outcome of reading `q` as a name in the namespace `uri`.
///
/// The name is read as by [`parse_name`]. An empty `uri` stands for no namespace, which a
/// name with a prefix cannot be in.
pub open spec fn parse_name_ns(uri: Seq<char>, q: Seq<char>) -> Result<NameView, Error> {
    match parse_name(q) {
        Err(e) => Err(e),
        Ok(n) => if uri.len() == 0 {
            if n.prefix is Some {
                Err(Error::Namespace)
            } else {
                Ok(n)
            }
        } else {
            Ok(NameView { namespace_uri: Some(uri), prefix: n.prefix, local_name: n.local_name })
        },
    }
}

/// A name that parses is written back as it was read.
pub proof fn lemma_parse_round_trip(q: Seq<char>)
    requires
        parse_name(q) is Ok,
    ensures
        parse_name(q)->Ok_0.qualified() == q,
{
    let k = find_char(q, ':', 0);
    lemma_find_char(q, ':', 0);
    if k < q.len() {
        assert(q.subrange(0, k) + seq![':'] + q.subrange(k + 1, q.len() as int) =~= q);
    }
}

/// A name in a namespace is written back as it was read, too.
pub proof fn lemma_parse_ns_round_trip(uri: Seq<char>, q: Seq<char>)
    requires
        parse_name_ns(uri, q) is Ok,
    ensures
        parse_name_ns(uri, q)->Ok_0.qualified() == q,
{
    lemma_parse_round_trip(q);
}

/// A name that parses holds no `*`, so the wildcard of a search is never the name of a node.
pub proof fn lemma_parsed_name_is_no_wildcard(q: Seq<char>)
    requires
        parse_name(q) is Ok,
    ensures
        q != seq!['*'],
{
    if q == seq!['*'] {
        assert(q[0] == '*');
        assert(find_char(q, ':', 1) == 1);
        assert(find_char(q, ':', 0) == 1);
        assert(!is_name_start_char('*'));
    }
}

/// The name of a node.
#[derive(Debug)]
pub struct Name {
    namespace_uri: Option<String>,
    prefix: Option<String>,
    local_name: String,
}

impl View for Name {
    type V = NameView;

    closed spec fn view(&self) -> NameView {
        NameView {
            namespace_uri: crate::text::opt_view(self.namespace_uri),
            prefix: crate::text::opt_view(self.prefix),
            local_name: self.local_name@,
        }
    }
}

impl Clone for Name {
    fn clone(&self) -> (r: Self)
        ensures
            r@ == self@,
    {
        Name {
            namespace_uri: clone_opt_string(&self.namespace_uri),
            prefix: clone_opt_string(&self.prefix),
            local_name: self.local_name.clone(),
        }
    }
}

impl PartialEq for Name {
    /// Names are equal as keys: the prefixes agree and the local parts agree.
    fn eq(&self, other: &Name) -> (r: bool) {
        self.same_key(other)
    }
}

impl Eq for Name {

}

impl vstd::std_specs::cmp::PartialEqSpecImpl for Name {
    open spec fn obeys_eq_spec() -> bool {
        true
    }

    open spec fn eq_spec(&self, other: &Name) -> bool {
        self@.same_key(other@)
    }
}

impl core::str::FromStr for Name {
    type Err = Error;

    /// Reads a name with an optional prefix, as `Name::parse` does.
    fn from_str(qualified_name: &str) -> (r: Result<Name, Error>)
        ensures
            r is Ok == parse_name(qualified_name@) is Ok,
            r matches Ok(n) ==> n@ == parse_name(qualified_name@)->Ok_0,
            r matches Err(e) ==> e == parse_name(qualified_name@)->Err_0,
    {
        Name::parse(qualified_name)
    }
}

/// Whether `c` may begin a part of a name.
pub fn name_start_char(c: char) -> (r: bool)
    ensures
        r == is_name_start_char(c),
{
    let u: u32 = c as u32;
    (c >= 'A' && c <= 'Z') || c == '_' || (c >= 'a' && c <= 'z') || (0xC0 <= u && u <= 0xD6) || (
    0xD8 <= u && u <= 0xF6) || (0xF8 <= u && u <= 0x2FF) || (0x370 <= u && u <= 0x37D) || (0x37F
        <= u && u <= 0x1FFF) || (0x200C <= u && u <= 0x200D) || (0x2070 <= u && u <= 0x218F) || (
    0x2C00 <= u && u <= 0x2FEF) || (0x3001 <= u && u <= 0xD7FF) || (0xF900 <= u && u <= 0xFDCF)
        || (0xFDF0 <= u && u <= 0xFFFD) || (0x10000 <= u && u <= 0xEFFFF)
}

/// Whether `c` may stand inside a part of a name.
pub fn name_char(c: char) -> (r: bool)
    ensures
        r == is_name_char(c),
{
    let u: u32 = c as u32;
    name_start_char(c) || c == '-' || c == '.' || (c >= '0' && c <= '9') || u == 0xB7 || (0x300
        <= u && u <= 0x36F) || (0x203F <= u && u <= 0x2040)
}

/// Checks one part of a name.
pub fn check_part(s: &str) -> (r: Option<Error>)
    ensures
        r == part_error(s@),
{
    let n: usize = s.unicode_len();
    if n == 0 {
        return Some(Error::Syntax);
    }
    if !name_start_char(s.get_char(0)) {
        return Some(Error::InvalidCharacter);
    }
    let mut i: usize = 1;
    while i < n
        invariant
            n == s@.len(),
            1 <= i <= n,
            forall|j: int| 0 < j < i ==> is_name_char(#[trigger] s@[j]),
        decreases n - i,
    {
        if !name_char(s.get_char(i)) {
            return Some(Error::InvalidCharacter);
        }
        i = i + 1;
    }
    None
}

impl Name {
    /// Reads a name with an optional prefix, such as `svg:rect` or `rect`.
    pub fn parse(qualified_name: &str) -> (r: Result<Name, Error>)
        ensures
            r is Ok == parse_name(qualified_name@) is Ok,
            r matches Ok(n) ==> n@ == parse_name(qualified_name@)->Ok_0,
            r matches Err(e) ==> e == parse_name(qualified_name@)->Err_0,
    {
        let n: usize = qualified_name.unicode_len();
        if n == 0 {
            return Err(Error::Syntax);
        }
        let k: usize = index_of_char(qualified_name, ':');
        proof {
            lemma_find_char(qualified_name@, ':', 0);
        }
        if k == n {
            match check_part(qualified_name) {
                Some(e) => Err(e),
                None => Ok(
                    Name {
                        namespace_uri: None,
                        prefix: None,
                        local_name: qualified_name.to_owned(),
                    },
                ),
            }
        } else {
            let prefix = slice_chars(qualified_name, 0, k);
            let local = slice_chars(qualified_name, k + 1, n);
            let second: usize = index_of_char(local.as_str(), ':');
            if second < local.as_str().unicode_len() {
                return Err(Error::Syntax);
            }
            match check_part(prefix.as_str()) {
                Some(e) => Err(e),
                None => match check_part(local.as_str()) {
                    Some(e) => Err(e),
                    None => Ok(Name { namespace_uri: None, prefix: Some(prefix), local_name: local }),
                },
            }
        }
    }

    /// Reads a name with an optional prefix and places it in the namespace `namespace_uri`.
    /// An empty `namespace_uri` stands for no namespace.
    pub fn from_namespace(namespace_uri: &str, qualified_name: &str) -> (r: Result<Name, Error>)
        ensures
            r is Ok == parse_name_ns(namespace_uri@, qualified_name@) is Ok,
            r matches Ok(n) ==> n@ == parse_name_ns(namespace_uri@, qualified_name@)->Ok_0,
            r matches Err(e) ==> e == parse_name_ns(namespace_uri@, qualified_name@)->Err_0,
    {
        match Name::parse(qualified_name) {
            Err(e) => Err(e),
            Ok(parsed) => {
                if namespace_uri.unicode_len() == 0 {
                    if parsed.prefix.is_some() {
                        Err(Error::Namespace)
                    } else {
                        Ok(parsed)
                    }
                } else {
                    Ok(
                        Name {
                            namespace_uri: Some(namespace_uri.to_owned()),
                            prefix: parsed.prefix,
                            local_name: parsed.local_name,
                        },
                    )
                }
            },
        }
    }

    /// The value of a name that is given by the kind of a node.
    pub open spec fn reserved_view(text: Seq<char>) -> NameView {
        NameView { namespace_uri: None, prefix: None, local_name: text }
    }

    /// A name that is given by the kind of a node rather than by the document, such as
    /// `#text`. No check is made of it.
    pub fn reserved(text: &str) -> (r: Name)
        ensures
            r@ == Name::reserved_view(text@),
    {
        Name { namespace_uri: None, prefix: None, local_name: text.to_owned() }
    }

    /// The name as it is written in markup.
    pub fn to_string(&self) -> (r: String)
        ensures
            r@ == self@.qualified(),
    {
        proof {
            reveal_strlit(":");
            assert(":"@ =~= seq![':']);
        }
        match &self.prefix {
            None => self.local_name.clone(),
            Some(p) => {
                let mut s = p.clone();
                s.append(":");
                s.append(self.local_name.as_str());
                s
            },
        }
    }

    /// The local part of the name.
    pub fn local_name(&self) -> (r: String)
        ensures
            r@ == self@.local_name,
    {
        self.local_name.clone()
    }

    /// The prefix of the name, if it has one.
    pub fn prefix(&self) -> (r: Option<String>)
        ensures
            crate::text::opt_view(r) == self@.prefix,
    {
        clone_opt_string(&self.prefix)
    }

    /// The namespace of the name, if it is in one.
    pub fn namespace_uri(&self) -> (r: Option<String>)
        ensures
            crate::text::opt_view(r) == self@.namespace_uri,
    {
        clone_opt_string(&self.namespace_uri)
    }

    /// Whether the name declares a namespace: it is `xmlns` itself or has the prefix `xmlns`.
    pub fn is_namespace_declaration(&self) -> (r: bool)
        ensures
            r == self@.is_namespace_declaration(),
    {
        match &self.prefix {
            Some(p) => str_eq(p.as_str(), "xmlns"),
            None => str_eq(self.local_name.as_str(), "xmlns"),
        }
    }

    /// Equality of names as keys: the prefixes agree and the local parts agree.
    pub fn same_key(&self, other: &Name) -> (r: bool)
        ensures
            r == self@.same_key(other@),
    {
        let prefixes = match (&self.prefix, &other.prefix) {
            (None, None) => true,
            (Some(a), Some(b)) => str_eq(a.as_str(), b.as_str()),
            _ => false,
        };
        prefixes && str_eq(self.local_name.as_str(), other.local_name.as_str())
    }
}

} // verus!
