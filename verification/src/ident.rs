use vstd::prelude::*;
use vstd::string::StringExecFns;
use vstd::string::StringSliceAdditionalSpecFns;

verus! {

/// Seed of the identity fold (the FNV-1a 64-bit offset basis).
pub const FOLD_SEED: u64 = 0xcbf29ce484222325;

/// Multiplier of the identity fold (the FNV-1a 64-bit prime).
pub const FOLD_PRIME: u64 = 0x100000001b3;

/// The deterministic 64-bit fold (FNV-1a) over a byte sequence that backs
/// every synthesized identity of this crate. It is a pure function of the
/// bytes, so re-deriving an identity from equal input always yields the
/// same value.
pub open spec fn fold_hash(bytes: Seq<u8>) -> u64
    decreases bytes.len(),
{
    if bytes.len() == 0 {
        FOLD_SEED
    } else {
        (fold_hash(bytes.drop_last()) ^ (bytes.last() as u64)).wrapping_mul(FOLD_PRIME)
    }
}

/// The synthesized identity of an edge, derived from the concatenation of
/// its two endpoint textual ids.
pub open spec fn spec_edge_ident(source: Seq<char>, target: Seq<char>) -> u64 {
    fold_hash(vstd::utf8::encode_utf8(source + target))
}

/// The error type of the textual-id hashing entry points. The fold is total,
/// so no call actually produces it; it is part of the interface so that
/// callers are not revised if a stricter id syntax is ever enforced.
#[derive(Debug, PartialEq, Eq, Structural)]
pub struct EggIdParseErr;

/// A synthesized 64-bit identity derived from a textual id.
#[derive(Debug, Clone, Copy, PartialEq, Eq, Structural)]
pub struct EggIdWrapper {
    pub id: u64,
}

/// Folds a textual id into a deterministic 64-bit identity.
pub fn egg_id_from_str(s: &str) -> (r: Result<u64, EggIdParseErr>)
    ensures
        r == Ok::<u64, EggIdParseErr>(fold_hash(s.spec_bytes())),
{
    let bytes: &[u8] = s.as_bytes();
    let n: usize = bytes.len();
    let mut h: u64 = FOLD_SEED;
    let mut i: usize = 0;
    while i < n
        invariant
            n == bytes@.len(),
            bytes@ == s.spec_bytes(),
            i <= n,
            h == fold_hash(bytes@.take(i as int)),
        decreases n - i,
    {
        let b: u8 = bytes[i];
        proof {
            assert(bytes@.take(i as int + 1).drop_last() =~= bytes@.take(i as int));
            assert(bytes@.take(i as int + 1).last() == bytes@[i as int]);
        }
        h = (h ^ (b as u64)).wrapping_mul(FOLD_PRIME);
        i = i + 1;
    }
    proof {
        assert(bytes@.take(n as int) =~= bytes@);
    }
    Ok(h)
}

impl EggIdWrapper {
    /// Folds a textual id into a wrapped 64-bit identity.
    pub fn from_str(s: &str) -> (r: Result<EggIdWrapper, EggIdParseErr>)
        ensures
            r == Ok::<EggIdWrapper, EggIdParseErr>(EggIdWrapper { id: fold_hash(s.spec_bytes()) }),
    {
        match egg_id_from_str(s) {
            Ok(id) => Ok(EggIdWrapper { id }),
            Err(e) => Err(e),
        }
    }
}

/// Synthesizes the identity of an edge from its endpoint textual ids.
pub fn edge_ident(source: &str, target: &str) -> (r: u64)
    ensures
        r == spec_edge_ident(source@, target@),
{
    let combined = source.to_owned().concat(target);
    let r = match egg_id_from_str(combined.as_str()) {
        Ok(id) => id,
        Err(_) => FOLD_SEED,
    };
    proof {
        assert(combined@ == source@ + target@);
    }
    r
}

} // verus!
