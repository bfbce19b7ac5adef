use vstd::prelude::*;

verus! {

/// Number of characters in a batch or job identifier.
pub const ID_LENGTH: usize = 10;

/// The characters an identifier is drawn from.
pub open spec fn id_alphabet() -> Seq<char> {
    seq!['1', '2', '3', '4', '5', '6', '7', '8', '9', '0', 'a', 'b', 'c', 'd', 'e', 'f']
}

/// A well-formed identifier: `ID_LENGTH` characters of the alphabet.
pub open spec fn is_id(s: Seq<char>) -> bool {
    &&& s.len() == ID_LENGTH
    &&& forall|i: int| 0 <= i < s.len() ==> id_alphabet().contains(#[trigger] s[i])
}

/// Relies on nanoid::format: it loops until it has pushed `size` characters,
/// each taken from `alphabet`. It asserts the alphabet fits in a byte and never
/// returns for an empty alphabet or a zero size.
#[verifier::external_body]
fn random_id(alphabet: &[char], size: usize) -> (r: String)
    requires
        1 <= alphabet@.len() <= 255,
        size >= 1,
        forall|i: int| 0 <= i < alphabet@.len() ==> (#[trigger] alphabet@[i] as u32) < 128,
    ensures
        r@.len() == size,
        forall|i: int| 0 <= i < r@.len() ==> alphabet@.contains(#[trigger] r@[i]),
{
    nanoid::format(nanoid::rngs::default, alphabet, size)
}

/// A fresh identifier for a batch or a job.
pub fn new_id() -> (r: String)
    ensures
        is_id(r@),
{
    let alphabet: [char; 16] = [
        '1', '2', '3', '4', '5', '6', '7', '8', '9', '0', 'a', 'b', 'c', 'd', 'e', 'f',
    ];
    assert(alphabet@ =~= id_alphabet());
    random_id(&alphabet, ID_LENGTH)
}

} // verus!
