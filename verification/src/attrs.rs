use vstd::prelude::*;

use crate::errors::LowerError;
use crate::term::opt_str_view;
use crate::text::str_eq;

verus! {

/// The view of a list of key/value string pairs.
pub open spec fn pairs_view(s: Seq<(String, String)>) -> Seq<(Seq<char>, Seq<char>)> {
    s.map_values(|p: (String, String)| (p.0@, p.1@))
}

/// The value of the first pair carrying `key`, if any.
pub open spec fn attr_lookup(attrs: Seq<(Seq<char>, Seq<char>)>, key: Seq<char>) -> Option<
    Seq<char>,
>
    decreases attrs.len(),
{
    if attrs.len() == 0 {
        None
    } else if attrs[0].0 == key {
        Some(attrs[0].1)
    } else {
        attr_lookup(attrs.drop_first(), key)
    }
}

/// Spec-level image of an extracted attribute record.
pub struct AttrsV {
    pub id: Seq<char>,
    pub name: Option<Seq<char>>,
    pub kind: Option<Seq<char>>,
}

/// What attribute extraction yields: the mandatory `id`, the optional
/// `name` and `kind`; a missing `id` is a malformed-input error. Unknown
/// keys are ignored.
pub open spec fn spec_attrs(attrs: Seq<(Seq<char>, Seq<char>)>) -> Result<AttrsV, LowerError> {
    match attr_lookup(attrs, "id"@) {
        None => Err(LowerError::MalformedInput),
        Some(id) => Ok(
            AttrsV { id, name: attr_lookup(attrs, "name"@), kind: attr_lookup(attrs, "kind"@) },
        ),
    }
}

/// The typed identity/name/kind record of one structural element.
#[derive(Debug, PartialEq, Eq)]
pub struct Attributes {
    pub id: String,
    pub name: Option<String>,
    pub kind: Option<String>,
}

impl View for Attributes {
    type V = AttrsV;

    open spec fn view(&self) -> AttrsV {
        AttrsV { id: self.id@, name: opt_str_view(self.name), kind: opt_str_view(self.kind) }
    }
}

/// The value of the first pair carrying `key`, if any.
pub(crate) fn lookup_attr(attrs: &Vec<(String, String)>, key: &str) -> (r: Option<String>)
    ensures
        opt_str_view(r) == attr_lookup(pairs_view(attrs@), key@),
{
    let pv = Ghost(pairs_view(attrs@));
    let n = attrs.len();
    let mut j: usize = 0;
    proof {
        assert(pv@.skip(0) =~= pv@);
    }
    while j < n
        invariant
            pv@ == pairs_view(attrs@),
            n == attrs@.len(),
            j <= n,
            attr_lookup(pv@, key@) == attr_lookup(pv@.skip(j as int), key@),
        decreases n - j,
    {
        proof {
            assert(pv@.skip(j as int).drop_first() =~= pv@.skip(j as int + 1));
            assert(pv@.skip(j as int)[0] == pv@[j as int]);
        }
        if str_eq(attrs[j].0.as_str(), key) {
            return Some(attrs[j].1.clone());
        }
        j = j + 1;
    }
    proof {
        assert(pv@.skip(n as int) =~= Seq::<(Seq<char>, Seq<char>)>::empty());
    }
    None
}

impl Attributes {
    /// Extracts the typed record from one element's unordered key/value
    /// pairs, exactly as `spec_attrs` states.
    pub fn from_pairs(attrs: &Vec<(String, String)>) -> (r: Result<Attributes, LowerError>)
        ensures
            match r {
                Ok(a) => spec_attrs(pairs_view(attrs@)) == Ok::<AttrsV, LowerError>(a@),
                Err(e) => spec_attrs(pairs_view(attrs@)) == Err::<AttrsV, LowerError>(e),
            },
    {
        let id = match lookup_attr(attrs, "id") {
            Some(v) => v,
            None => {
                return Err(LowerError::MalformedInput);
            },
        };
        let name = lookup_attr(attrs, "name");
        let kind = lookup_attr(attrs, "kind");
        Ok(Attributes { id, name, kind })
    }
}

} // verus!
