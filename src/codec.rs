use vstd::prelude::*;
use vstd::string::*;
use crate::text::push_char;

verus! {

/// The pairing partner of a nucleotide: A and T swap, G and C swap, N stays N.
/// Every other character is its own partner.
pub open spec fn complement(c: char) -> char {
    if c == 'A' {
        'T'
    } else if c == 'T' {
        'A'
    } else if c == 'G' {
        'C'
    } else if c == 'C' {
        'G'
    } else {
        c
    }
}

/// The sequence read backwards, each character replaced by its partner.
pub open spec fn reverse_complement_of(s: Seq<char>) -> Seq<char> {
    Seq::new(s.len(), |i: int| complement(s[s.len() - 1 - i]))
}

/// Whether a character is one of the nucleotide codes A, T, G, C, N.
pub open spec fn is_nucleotide(c: char) -> bool {
    c == 'A' || c == 'T' || c == 'G' || c == 'C' || c == 'N'
}

pub fn complement_base(c: char) -> (r: char)
    ensures
        r == complement(c),
{
    match c {
        'A' => 'T',
        'T' => 'A',
        'G' => 'C',
        'C' => 'G',
        _ => c,
    }
}

pub fn is_nucleotide_char(c: char) -> (r: bool)
    ensures
        r == is_nucleotide(c),
{
    c == 'A' || c == 'T' || c == 'G' || c == 'C' || c == 'N'
}

/// The reverse complement of a DNA sequence; characters outside A, T, G, C
/// pass through unchanged (in reversed position).
pub fn reverse_complement(dna: &str) -> (r: String)
    ensures
        r@ == reverse_complement_of(dna@),
{
    let n = dna.unicode_len();
    let mut out = String::new();
    let mut i: usize = n;
    while i > 0
        invariant
            n == dna@.len(),
            i <= n,
            out@.len() == n - i,
            forall|j: int| 0 <= j < n - i ==> out@[j] == complement(dna@[n - 1 - j]),
        decreases i,
    {
        let c = dna.get_char(i - 1);
        push_char(&mut out, complement_base(c));
        i = i - 1;
    }
    assert(out@ =~= reverse_complement_of(dna@));
    out
}

/// Taking the reverse complement twice gives back the original sequence.
/// This holds for every string, and in particular for strings made of
/// A, T, G, C and N only.
pub proof fn reverse_complement_involution(s: Seq<char>)
    ensures
        reverse_complement_of(reverse_complement_of(s)) == s,
{
    let r = reverse_complement_of(s);
    assert(reverse_complement_of(r) =~= s);
}

} // verus!
