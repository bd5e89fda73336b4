use vstd::prelude::*;

verus! {

broadcast use vstd::string::group_string_axioms;

/// The characters of `s`, in order.
pub fn chars_of(s: &str) -> (res: Vec<char>)
    ensures
        res@ == s@,
{
    let mut res: Vec<char> = Vec::new();
    for c in it: s.chars()
        invariant
            it.seq() == s@,
            res@ == it.seq().take(it.index()),
    {
        res.push(c);
    }
    res
}

/// Collects `chars` into a `String` with `String::from_iter`; the contract
/// claims what its documentation says: the string holds exactly these
/// characters, in this order.
#[verifier::external_body]
pub fn string_of(chars: &Vec<char>) -> (res: String)
    ensures
        res@ == chars@,
{
    chars.iter().collect::<String>()
}

/// Whether `token` equals the `len` characters of `text` from `start` on.
pub fn window_matches(token: &Vec<char>, text: &Vec<char>, start: usize, len: usize) -> (res: bool)
    requires
        start + len <= text.len(),
    ensures
        res == (token@ == text@.subrange(start as int, start + len)),
{
    if token.len() != len {
        return false;
    }
    let mut k: usize = 0;
    while k < len
        invariant
            token.len() == len,
            start + len <= text.len(),
            0 <= k <= len,
            forall|m: int| 0 <= m < k ==> token@[m] == text@[start + m],
        decreases len - k,
    {
        if token[k] != text[start + k] {
            assert(token@[k as int] != text@.subrange(start as int, start + len)[k as int]);
            return false;
        }
        k += 1;
    }
    assert(token@ =~= text@.subrange(start as int, start + len));
    true
}

} // verus!
