use vstd::prelude::*;

verus! {

/// Relies on `String::push`: the character is appended at the end.
#[verifier::external_body]
pub(crate) fn push_char(s: &mut String, c: char)
    ensures
        final(s)@ == old(s)@.push(c),
{
    s.push(c);
}

/// Decodes `s` into its characters, in order.
pub fn chars_of(s: &str) -> (r: Vec<char>)
    ensures
        r@ == s@,
{
    let mut out: Vec<char> = Vec::new();
    for c in it: s.chars()
        invariant
            it.seq() == s@,
            out@ == s@.take(it.index() as int),
        ensures
            out@ == s@,
    {
        assert(s@.take(it.index() + 1) =~= s@.take(it.index() as int).push(c));
        out.push(c);
    }
    out
}

/// The text of `src[lo..hi]` as an owned string.
pub fn string_of_range(src: &Vec<char>, lo: usize, hi: usize) -> (r: String)
    requires
        lo <= hi <= src@.len(),
    ensures
        r@ == src@.subrange(lo as int, hi as int),
{
    let mut out = String::new();
    let mut i: usize = lo;
    while i < hi
        invariant
            lo <= i <= hi <= src@.len(),
            out@ == src@.subrange(lo as int, i as int),
        decreases hi - i,
    {
        push_char(&mut out, src[i]);
        assert(src@.subrange(lo as int, i + 1) =~= src@.subrange(lo as int, i as int).push(src@[i as int]));
        i = i + 1;
    }
    out
}

} // verus!
