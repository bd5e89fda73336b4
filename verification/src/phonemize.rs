use vstd::prelude::*;

use crate::chars::{chars_of, string_of, window_matches};
use crate::error::KokoroError;

verus! {

// ---------------------------------------------------------------------------
// Replacing every occurrence of a pattern.
// ---------------------------------------------------------------------------

/// `s` with every occurrence of the nonempty pattern `from` replaced by `to`,
/// scanning from the left and never overlapping two occurrences (the
/// behaviour of `str::replace`).
pub open spec fn replace_spec(s: Seq<char>, from: Seq<char>, to: Seq<char>) -> Seq<char>
    recommends
        from.len() > 0,
    decreases s.len(),
{
    if from.len() == 0 || s.len() < from.len() {
        s
    } else if s.take(from.len() as int) == from {
        to + replace_spec(s.skip(from.len() as int), from, to)
    } else {
        seq![s[0]] + replace_spec(s.drop_first(), from, to)
    }
}

/// Whether `p` occurs in `s`.
pub open spec fn occurs_in(s: Seq<char>, p: Seq<char>) -> bool {
    exists|i: int| 0 <= i && i + p.len() <= s.len() && #[trigger] s.subrange(i, i + p.len()) == p
}

/// Whether the character `c` does not occur in `s`.
pub open spec fn lacks(s: Seq<char>, c: char) -> bool {
    forall|i: int| 0 <= i < s.len() ==> #[trigger] s[i] != c
}

/// `s` with every occurrence of `from` replaced by `to`.
fn replace_chars(s: &Vec<char>, from: &Vec<char>, to: &Vec<char>) -> (res: Vec<char>)
    requires
        from.len() > 0,
    ensures
        res@ == replace_spec(s@, from@, to@),
{
    let mut res: Vec<char> = Vec::new();
    let mut i: usize = 0;
    assert(s@.skip(0) =~= s@);
    assert(res@ + replace_spec(s@, from@, to@) =~= replace_spec(s@, from@, to@));
    while i < s.len()
        invariant
            from.len() > 0,
            0 <= i <= s.len(),
            res@ + replace_spec(s@.skip(i as int), from@, to@) == replace_spec(s@, from@, to@),
        decreases s.len() - i,
    {
        let ghost t = s@.skip(i as int);
        let ghost before = res@;
        if from.len() <= s.len() - i && window_matches(from, s, i, from.len()) {
            assert(t.take(from.len() as int) =~= s@.subrange(i as int, i + from.len()));
            let mut k: usize = 0;
            while k < to.len()
                invariant
                    0 <= k <= to.len(),
                    res@ == before + to@.take(k as int),
                decreases to.len() - k,
            {
                res.push(to[k]);
                assert(to@.take(k + 1) =~= to@.take(k as int).push(to@[k as int]));
                k += 1;
            }
            assert(to@.take(to.len() as int) =~= to@);
            assert(t.skip(from.len() as int) =~= s@.skip(i + from.len()));
            assert(res@ + replace_spec(t.skip(from.len() as int), from@, to@) =~= before + (to@
                + replace_spec(t.skip(from.len() as int), from@, to@)));
            i += from.len();
        } else {
            if from.len() <= s.len() - i {
                assert(t.take(from.len() as int) =~= s@.subrange(i as int, i + from.len()));
            } else {
                assert(t =~= seq![t[0]] + t.drop_first());
            }
            res.push(s[i]);
            assert(t.drop_first() =~= s@.skip(i + 1));
            assert(res@ + replace_spec(t.drop_first(), from@, to@) =~= before + (seq![t[0]]
                + replace_spec(t.drop_first(), from@, to@)));
            i += 1;
        }
    }
    assert(s@.skip(i as int) =~= Seq::<char>::empty());
    assert(res@ + Seq::<char>::empty() =~= res@);
    res
}

// ---------------------------------------------------------------------------
// From espeak IPA to Kokoro phoneme symbols.
// ---------------------------------------------------------------------------

/// The substitutions from espeak IPA to Kokoro phoneme symbols, applied in
/// this order (longer patterns first): diphthongs and affricates become the
/// single composed symbols Kokoro knows, a few sounds Kokoro lacks map to
/// their nearest neighbour, and length and palatalization marks are dropped.
pub open spec fn substitutions() -> Seq<(Seq<char>, Seq<char>)> {
    seq![
        (seq!['a', '\u{26a}'], seq!['I']),
        (seq!['a', '\u{28a}'], seq!['W']),
        (seq!['d', '\u{292}'], seq!['\u{2a4}']),
        (seq!['e', '\u{26a}'], seq!['A']),
        (seq!['t', '\u{283}'], seq!['\u{2a7}']),
        (seq!['\u{254}', '\u{26a}'], seq!['Y']),
        (seq!['o', '\u{28a}'], seq!['O']),
        (seq!['\u{25a}'], seq!['\u{259}', '\u{279}']),
        (seq!['r'], seq!['\u{279}']),
        (seq!['x'], seq!['k']),
        (seq!['\u{e7}'], seq!['k']),
        (seq!['\u{250}'], seq!['\u{259}']),
        (seq!['\u{26c}'], seq!['l']),
        (seq!['\u{294}'], seq!['t']),
        (seq!['n', '\u{329}'], seq!['\u{1d4a}', 'n']),
        (seq!['\u{2b2}'], seq![]),
        (seq!['\u{2d0}'], seq![]),
    ]
}

/// `s` after each substitution of `table`, in order.
pub open spec fn apply_substitutions(s: Seq<char>, table: Seq<(Seq<char>, Seq<char>)>) -> Seq<
    char,
>
    decreases table.len(),
{
    if table.len() == 0 {
        s
    } else {
        apply_substitutions(replace_spec(s, table[0].0, table[0].1), table.drop_first())
    }
}

/// The Kokoro phoneme string for the espeak IPA string `ipa`.
pub open spec fn kokoro_phonemes(ipa: Seq<char>) -> Seq<char> {
    apply_substitutions(ipa, substitutions())
}

/// The substitution table, as vectors of characters.
fn substitution_table() -> (table: Vec<(Vec<char>, Vec<char>)>)
    ensures
        table@.len() == substitutions().len(),
        forall|k: int|
            0 <= k < table@.len() ==> (#[trigger] table@[k]).0@ == substitutions()[k].0
                && table@[k].1@ == substitutions()[k].1 && table@[k].0@.len() > 0,
{
    let table = vec![
        (vec!['a', '\u{26a}'], vec!['I']),
        (vec!['a', '\u{28a}'], vec!['W']),
        (vec!['d', '\u{292}'], vec!['\u{2a4}']),
        (vec!['e', '\u{26a}'], vec!['A']),
        (vec!['t', '\u{283}'], vec!['\u{2a7}']),
        (vec!['\u{254}', '\u{26a}'], vec!['Y']),
        (vec!['o', '\u{28a}'], vec!['O']),
        (vec!['\u{25a}'], vec!['\u{259}', '\u{279}']),
        (vec!['r'], vec!['\u{279}']),
        (vec!['x'], vec!['k']),
        (vec!['\u{e7}'], vec!['k']),
        (vec!['\u{250}'], vec!['\u{259}']),
        (vec!['\u{26c}'], vec!['l']),
        (vec!['\u{294}'], vec!['t']),
        (vec!['n', '\u{329}'], vec!['\u{1d4a}', 'n']),
        (vec!['\u{2b2}'], vec![]),
        (vec!['\u{2d0}'], vec![]),
    ];
    table
}

/// Converts espeak IPA into the phoneme symbols of the Kokoro vocabulary:
/// composes diphthongs and affricates into Kokoro's single symbols, maps the
/// sounds Kokoro lacks onto their nearest neighbours and drops length and
/// palatalization marks.
pub fn espeak_ipa_to_kokoro(ipa: &str) -> (res: String)
    ensures
        res@ == kokoro_phonemes(ipa@),
{
    let table = substitution_table();
    let mut current = chars_of(ipa);
    let mut k: usize = 0;
    assert(substitutions().skip(0) =~= substitutions());
    while k < table.len()
        invariant
            table@.len() == substitutions().len(),
            forall|j: int|
                0 <= j < table@.len() ==> (#[trigger] table@[j]).0@ == substitutions()[j].0
                    && table@[j].1@ == substitutions()[j].1 && table@[j].0@.len() > 0,
            0 <= k <= table.len(),
            kokoro_phonemes(ipa@) == apply_substitutions(
                current@,
                substitutions().skip(k as int),
            ),
        decreases table.len() - k,
    {
        assert(table@[k as int].0@ == substitutions()[k as int].0);
        current = replace_chars(&current, &table[k].0, &table[k].1);
        assert(substitutions().skip(k as int).drop_first() =~= substitutions().skip(k + 1));
        assert(substitutions().skip(k as int)[0] == substitutions()[k as int]);
        k += 1;
    }
    assert(substitutions().skip(k as int) =~= Seq::<(Seq<char>, Seq<char>)>::empty());
    string_of(&current)
}

/// The Kokoro phoneme strings for the espeak IPA of a text's sentences, one
/// for each sentence, in order.
pub fn kokoro_phonemes_from_ipa(sentences: &Vec<String>) -> (res: Vec<String>)
    ensures
        res.len() == sentences.len(),
        forall|i: int| 0 <= i < res.len() ==> #[trigger] res@[i]@ == kokoro_phonemes(sentences@[i]@),
{
    let mut res: Vec<String> = Vec::new();
    let mut i: usize = 0;
    while i < sentences.len()
        invariant
            0 <= i <= sentences.len(),
            res.len() == i,
            forall|j: int| 0 <= j < i ==> #[trigger] res@[j]@ == kokoro_phonemes(sentences@[j]@),
        decreases sentences.len() - i,
    {
        res.push(espeak_ipa_to_kokoro(sentences[i].as_str()));
        i += 1;
    }
    res
}

// ---------------------------------------------------------------------------
// What the conversion keeps and what it removes.
// ---------------------------------------------------------------------------

proof fn lemma_replace_absent(s: Seq<char>, from: Seq<char>, to: Seq<char>)
    requires
        from.len() > 0,
        !occurs_in(s, from),
    ensures
        replace_spec(s, from, to) == s,
    decreases s.len(),
{
    if s.len() >= from.len() {
        assert(s.subrange(0, from.len() as int) == s.take(from.len() as int));
        assert(s.subrange(0int, 0int + from.len()) != from);
        assert(!occurs_in(s.drop_first(), from)) by {
            if occurs_in(s.drop_first(), from) {
                let i: int = choose|i: int|
                    0 <= i && i + from.len() <= s.drop_first().len() && #[trigger] s.drop_first().subrange(
                        i,
                        i + from.len(),
                    ) == from;
                assert(s.subrange(i + 1, i + 1 + from.len()) =~= s.drop_first().subrange(
                    i,
                    i + from.len(),
                ));
            }
        }
        lemma_replace_absent(s.drop_first(), from, to);
        assert(s =~= seq![s[0]] + s.drop_first());
    }
}

proof fn lemma_apply_absent(s: Seq<char>, table: Seq<(Seq<char>, Seq<char>)>)
    requires
        forall|k: int|
            0 <= k < table.len() ==> (#[trigger] table[k]).0.len() > 0 && !occurs_in(s, table[k].0),
    ensures
        apply_substitutions(s, table) == s,
    decreases table.len(),
{
    if table.len() > 0 {
        assert(table[0].0.len() > 0 && !occurs_in(s, table[0].0));
        lemma_replace_absent(s, table[0].0, table[0].1);
        assert forall|k: int| 0 <= k < table.drop_first().len() implies (
        #[trigger] table.drop_first()[k]).0.len() > 0 && !occurs_in(s, table.drop_first()[k].0) by {
            assert(table.drop_first()[k] == table[k + 1]);
        }
        lemma_apply_absent(s, table.drop_first());
    }
}

proof fn lemma_substitution_patterns_nonempty()
    ensures
        forall|k: int|
            0 <= k < substitutions().len() ==> (#[trigger] substitutions()[k]).0.len() > 0,
{
    let t = substitutions();
    assert forall|k: int| 0 <= k < t.len() implies (#[trigger] t[k]).0.len() > 0 by {
        assert(0 <= k < 17);
    }
}

/// IPA in which no substitution pattern occurs (no diphthong, affricate,
/// length mark or other symbol that Kokoro spells differently) is already
/// Kokoro phonemes: the conversion hands it back unchanged.
pub proof fn lemma_plain_phonemes_unchanged(ipa: Seq<char>)
    requires
        forall|k: int| 0 <= k < substitutions().len() ==> !occurs_in(ipa, #[trigger] substitutions()[k].0),
    ensures
        kokoro_phonemes(ipa) == ipa,
{
    lemma_substitution_patterns_nonempty();
    lemma_apply_absent(ipa, substitutions());
}

proof fn lemma_replace_keeps_lacking(s: Seq<char>, from: Seq<char>, to: Seq<char>, c: char)
    requires
        lacks(s, c),
        lacks(to, c),
    ensures
        lacks(replace_spec(s, from, to), c),
    decreases s.len(),
{
    if from.len() == 0 || s.len() < from.len() {
    } else if s.take(from.len() as int) == from {
        lemma_replace_keeps_lacking(s.skip(from.len() as int), from, to, c);
        let rest = replace_spec(s.skip(from.len() as int), from, to);
        assert forall|i: int| 0 <= i < (to + rest).len() implies #[trigger] (to + rest)[i] != c by {
            if i >= to.len() {
                assert((to + rest)[i] == rest[i - to.len()]);
            }
        }
    } else {
        lemma_replace_keeps_lacking(s.drop_first(), from, to, c);
        let rest = replace_spec(s.drop_first(), from, to);
        assert forall|i: int| 0 <= i < (seq![s[0]] + rest).len() implies #[trigger] (seq![s[0]]
            + rest)[i] != c by {
            if i >= 1 {
                assert((seq![s[0]] + rest)[i] == rest[i - 1]);
            }
        }
    }
}

proof fn lemma_replace_removes(s: Seq<char>, c: char, to: Seq<char>)
    requires
        lacks(to, c),
    ensures
        lacks(replace_spec(s, seq![c], to), c),
    decreases s.len(),
{
    let from = seq![c];
    if s.len() < 1 {
    } else if s.take(1) == from {
        lemma_replace_removes(s.skip(1), c, to);
        let rest = replace_spec(s.skip(1), from, to);
        assert forall|i: int| 0 <= i < (to + rest).len() implies #[trigger] (to + rest)[i] != c by {
            if i >= to.len() {
                assert((to + rest)[i] == rest[i - to.len()]);
            }
        }
    } else {
        assert(s.take(1) =~= seq![s[0]]);
        lemma_replace_removes(s.drop_first(), c, to);
        let rest = replace_spec(s.drop_first(), from, to);
        assert forall|i: int| 0 <= i < (seq![s[0]] + rest).len() implies #[trigger] (seq![s[0]]
            + rest)[i] != c by {
            if i >= 1 {
                assert((seq![s[0]] + rest)[i] == rest[i - 1]);
            }
        }
    }
}

proof fn lemma_apply_keeps_lacking(s: Seq<char>, table: Seq<(Seq<char>, Seq<char>)>, c: char)
    requires
        lacks(s, c),
        forall|k: int| 0 <= k < table.len() ==> lacks((#[trigger] table[k]).1, c),
    ensures
        lacks(apply_substitutions(s, table), c),
    decreases table.len(),
{
    if table.len() > 0 {
        assert(lacks(table[0].1, c));
        lemma_replace_keeps_lacking(s, table[0].0, table[0].1, c);
        assert forall|k: int| 0 <= k < table.drop_first().len() implies lacks(
            (#[trigger] table.drop_first()[k]).1,
            c,
        ) by {
            assert(table.drop_first()[k] == table[k + 1]);
        }
        lemma_apply_keeps_lacking(
            replace_spec(s, table[0].0, table[0].1),
            table.drop_first(),
            c,
        );
    }
}

proof fn lemma_apply_removes(s: Seq<char>, table: Seq<(Seq<char>, Seq<char>)>, j: int, c: char)
    requires
        0 <= j < table.len(),
        table[j].0 == seq![c],
        forall|k: int| j <= k < table.len() ==> lacks((#[trigger] table[k]).1, c),
    ensures
        lacks(apply_substitutions(s, table), c),
    decreases j,
{
    assert forall|k: int| j <= k < table.drop_first().len() + 1 && k >= 1 implies lacks(
        (#[trigger] table.drop_first()[k - 1]).1,
        c,
    ) by {
        assert(table.drop_first()[k - 1] == table[k]);
    }
    if j == 0 {
        assert(lacks(table[0].1, c));
        lemma_replace_removes(s, c, table[0].1);
        assert forall|k: int| 0 <= k < table.drop_first().len() implies lacks(
            (#[trigger] table.drop_first()[k]).1,
            c,
        ) by {
            assert(table.drop_first()[k] == table[k + 1]);
        }
        lemma_apply_keeps_lacking(replace_spec(s, seq![c], table[0].1), table.drop_first(), c);
    } else {
        assert(table.drop_first()[j - 1] == table[j]);
        assert forall|k: int| j - 1 <= k < table.drop_first().len() implies lacks(
            (#[trigger] table.drop_first()[k]).1,
            c,
        ) by {
            assert(table.drop_first()[k] == table[k + 1]);
        }
        lemma_apply_removes(
            replace_spec(s, table[0].0, table[0].1),
            table.drop_first(),
            j - 1,
            c,
        );
    }
}

/// The replacements of the single-character substitutions and of those after
/// them hold only the symbols ə ɹ k l t ᵊ n.
proof fn lemma_late_replacements(c: char)
    requires
        c != '\u{259}' && c != '\u{279}' && c != 'k' && c != 'l' && c != 't' && c != '\u{1d4a}'
            && c != 'n',
    ensures
        forall|k: int| 7 <= k < substitutions().len() ==> lacks((#[trigger] substitutions()[k]).1, c),
{
    let t = substitutions();
    assert forall|k: int| 7 <= k < t.len() implies lacks((#[trigger] t[k]).1, c) by {
        if k == 7 {
            assert(t[7].1 == seq!['\u{259}', '\u{279}']);
        } else if k == 8 {
            assert(t[8].1 == seq!['\u{279}']);
        } else if k == 9 {
            assert(t[9].1 == seq!['k']);
        } else if k == 10 {
            assert(t[10].1 == seq!['k']);
        } else if k == 11 {
            assert(t[11].1 == seq!['\u{259}']);
        } else if k == 12 {
            assert(t[12].1 == seq!['l']);
        } else if k == 13 {
            assert(t[13].1 == seq!['t']);
        } else if k == 14 {
            assert(t[14].1 == seq!['\u{1d4a}', 'n']);
        } else if k == 15 {
            assert(t[15].1 == Seq::<char>::empty());
        } else {
            assert(k == 16);
            assert(t[16].1 == Seq::<char>::empty());
        }
    }
}

/// What comes out of the conversion holds none of the espeak symbols that it
/// replaces one for one: no ɚ, r, x, ç, ɐ, ɬ or ʔ, and no palatalization (ʲ)
/// or length (ː) mark.
pub proof fn lemma_replaced_symbols_absent(ipa: Seq<char>)
    ensures
        lacks(kokoro_phonemes(ipa), '\u{25a}'),
        lacks(kokoro_phonemes(ipa), 'r'),
        lacks(kokoro_phonemes(ipa), 'x'),
        lacks(kokoro_phonemes(ipa), '\u{e7}'),
        lacks(kokoro_phonemes(ipa), '\u{250}'),
        lacks(kokoro_phonemes(ipa), '\u{26c}'),
        lacks(kokoro_phonemes(ipa), '\u{294}'),
        lacks(kokoro_phonemes(ipa), '\u{2b2}'),
        lacks(kokoro_phonemes(ipa), '\u{2d0}'),
{
    let t = substitutions();
    lemma_late_replacements('\u{25a}');
    lemma_apply_removes(ipa, t, 7, '\u{25a}');
    lemma_late_replacements('r');
    lemma_apply_removes(ipa, t, 8, 'r');
    lemma_late_replacements('x');
    lemma_apply_removes(ipa, t, 9, 'x');
    lemma_late_replacements('\u{e7}');
    lemma_apply_removes(ipa, t, 10, '\u{e7}');
    lemma_late_replacements('\u{250}');
    lemma_apply_removes(ipa, t, 11, '\u{250}');
    lemma_late_replacements('\u{26c}');
    lemma_apply_removes(ipa, t, 12, '\u{26c}');
    lemma_late_replacements('\u{294}');
    lemma_apply_removes(ipa, t, 13, '\u{294}');
    lemma_late_replacements('\u{2b2}');
    lemma_apply_removes(ipa, t, 15, '\u{2b2}');
    lemma_late_replacements('\u{2d0}');
    lemma_apply_removes(ipa, t, 16, '\u{2d0}');
}

/// Whether some occurrence of `p` in `a + b` overlaps both `a` and `b`.
pub open spec fn spans_boundary(a: Seq<char>, b: Seq<char>, p: Seq<char>) -> bool {
    exists|i: int|
        0 <= i < a.len() && a.len() < i + p.len() && i + p.len() <= a.len() + b.len()
            && #[trigger] (a + b).subrange(i, i + p.len()) == p
}

/// Replacing every occurrence works piece by piece: where no occurrence of the
/// pattern overlaps both `a` and `b`, replacing in `a + b` gives what replacing
/// in `a` and in `b` gives, put together. So each occurrence is replaced,
/// however many there are and wherever they stand.
pub proof fn lemma_replace_concat(a: Seq<char>, b: Seq<char>, from: Seq<char>, to: Seq<char>)
    requires
        from.len() > 0,
        !spans_boundary(a, b, from),
    ensures
        replace_spec(a + b, from, to) == replace_spec(a, from, to) + replace_spec(b, from, to),
    decreases a.len(),
{
    let s = a + b;
    let n = from.len();
    if a.len() == 0 {
        assert(s =~= b);
        assert(replace_spec(a, from, to) == a);
        assert(a + replace_spec(b, from, to) =~= replace_spec(b, from, to));
    } else if s.len() < n {
        assert(replace_spec(a, from, to) == a);
        assert(replace_spec(b, from, to) == b);
    } else if s.take(n as int) == from {
        if a.len() < n {
            assert(s.subrange(0int, 0int + n) == s.take(n as int));
            assert(spans_boundary(a, b, from));
        }
        assert(a.take(n as int) =~= s.take(n as int));
        let a2 = a.skip(n as int);
        assert(s.skip(n as int) =~= a2 + b);
        assert(!spans_boundary(a2, b, from)) by {
            if spans_boundary(a2, b, from) {
                let i: int = choose|i: int|
                    0 <= i < a2.len() && a2.len() < i + from.len() && i + from.len() <= a2.len()
                        + b.len() && #[trigger] (a2 + b).subrange(i, i + from.len()) == from;
                assert((a + b).subrange(i + n, i + n + n) =~= (a2 + b).subrange(i, i + n));
                assert(spans_boundary(a, b, from));
            }
        }
        lemma_replace_concat(a2, b, from, to);
        assert(to + (replace_spec(a2, from, to) + replace_spec(b, from, to)) =~= (to
            + replace_spec(a2, from, to)) + replace_spec(b, from, to));
    } else {
        let a2 = a.drop_first();
        assert(s.drop_first() =~= a2 + b);
        assert(!spans_boundary(a2, b, from)) by {
            if spans_boundary(a2, b, from) {
                let i: int = choose|i: int|
                    0 <= i < a2.len() && a2.len() < i + from.len() && i + from.len() <= a2.len()
                        + b.len() && #[trigger] (a2 + b).subrange(i, i + from.len()) == from;
                assert((a + b).subrange(i + 1, i + 1 + n) =~= (a2 + b).subrange(i, i + n));
                assert(spans_boundary(a, b, from));
            }
        }
        lemma_replace_concat(a2, b, from, to);
        assert(s[0] == a[0]);
        if a.len() >= n {
            assert(a.take(n as int) =~= s.take(n as int));
        } else {
            assert(replace_spec(a, from, to) == a);
            assert(replace_spec(a2, from, to) == a2);
            assert(a =~= seq![a[0]] + a2);
        }
        assert(seq![a[0]] + (replace_spec(a2, from, to) + replace_spec(b, from, to)) =~= (seq![a[0]]
            + replace_spec(a2, from, to)) + replace_spec(b, from, to));
    }
}

/// A last character that is not in the pattern stays the last character.
proof fn lemma_replace_keeps_last(a: Seq<char>, from: Seq<char>, to: Seq<char>)
    requires
        a.len() > 0,
        from.len() > 0,
        lacks(from, a.last()),
    ensures
        replace_spec(a, from, to).len() > 0,
        replace_spec(a, from, to).last() == a.last(),
{
    let c = a.last();
    let d = a.drop_last();
    let e = seq![c];
    assert(a =~= d + e);
    assert(!spans_boundary(d, e, from)) by {
        if spans_boundary(d, e, from) {
            let i: int = choose|i: int|
                0 <= i < d.len() && d.len() < i + from.len() && i + from.len() <= d.len() + e.len()
                    && #[trigger] (d + e).subrange(i, i + from.len()) == from;
            assert(from[d.len() - i] == (d + e).subrange(i, i + from.len())[d.len() - i]);
        }
    }
    lemma_replace_concat(d, e, from, to);
    if from.len() == 1 {
        assert(e.take(1) =~= e);
        assert(e.take(1) != from) by {
            assert(from[0] != c);
        }
        assert(e.drop_first() =~= Seq::<char>::empty());
        assert(replace_spec(e.drop_first(), from, to) =~= Seq::<char>::empty());
        assert(replace_spec(e, from, to) =~= e);
    } else {
        assert(replace_spec(e, from, to) == e);
    }
}

/// Where the last character of `a` is in no pattern of `table`, applying the
/// table to `a + b` gives what applying it to `a` and to `b` gives.
proof fn lemma_apply_concat(a: Seq<char>, b: Seq<char>, table: Seq<(Seq<char>, Seq<char>)>)
    requires
        a.len() > 0,
        forall|k: int|
            0 <= k < table.len() ==> (#[trigger] table[k]).0.len() > 0 && lacks(table[k].0, a.last()),
    ensures
        apply_substitutions(a + b, table) == apply_substitutions(a, table) + apply_substitutions(
            b,
            table,
        ),
    decreases table.len(),
{
    if table.len() > 0 {
        let from = table[0].0;
        let to = table[0].1;
        assert(from.len() > 0 && lacks(from, a.last()));
        assert(!spans_boundary(a, b, from)) by {
            if spans_boundary(a, b, from) {
                let i: int = choose|i: int|
                    0 <= i < a.len() && a.len() < i + from.len() && i + from.len() <= a.len()
                        + b.len() && #[trigger] (a + b).subrange(i, i + from.len()) == from;
                let k = a.len() - 1 - i;
                assert(from[k] == (a + b).subrange(i, i + from.len())[k]);
                assert((a + b)[a.len() - 1] == a.last());
            }
        }
        lemma_replace_concat(a, b, from, to);
        lemma_replace_keeps_last(a, from, to);
        let a2 = replace_spec(a, from, to);
        let b2 = replace_spec(b, from, to);
        assert forall|k: int| 0 <= k < table.drop_first().len() implies (
        #[trigger] table.drop_first()[k]).0.len() > 0 && lacks(table.drop_first()[k].0, a2.last()) by {
            assert(table.drop_first()[k] == table[k + 1]);
        }
        lemma_apply_concat(a2, b2, table.drop_first());
    }
}

/// The conversion works piece by piece: where the last character of `a` is in
/// no substitution pattern (a space, say, or a stress mark), converting `a + b`
/// gives the conversions of `a` and of `b`, put together; every occurrence of
/// a pattern in either piece is replaced.
pub proof fn lemma_kokoro_phonemes_concat(a: Seq<char>, b: Seq<char>)
    requires
        a.len() > 0,
        forall|k: int| 0 <= k < substitutions().len() ==> lacks(#[trigger] substitutions()[k].0, a.last()),
    ensures
        kokoro_phonemes(a + b) == kokoro_phonemes(a) + kokoro_phonemes(b),
{
    lemma_substitution_patterns_nonempty();
    lemma_apply_concat(a, b, substitutions());
}

/// Words converted apart and together agree: converting `a` ending in a space,
/// followed by `b`, gives the conversions of `a` and of `b`, put together.
pub proof fn lemma_kokoro_phonemes_split_after_space(a: Seq<char>, b: Seq<char>)
    requires
        a.len() > 0,
        a.last() == ' ',
    ensures
        kokoro_phonemes(a + b) == kokoro_phonemes(a) + kokoro_phonemes(b),
{
    let t = substitutions();
    assert forall|k: int| 0 <= k < t.len() implies lacks(#[trigger] t[k].0, a.last()) by {
        assert(0 <= k < 17);
    }
    lemma_kokoro_phonemes_concat(a, b);
}


/// Phonemization of text into Kokoro phoneme strings needs espeak-ng, which
/// this build does not hold: the call fails, and says why.
pub fn text_to_kokoro_phonemes(_text: &str, _language: &str) -> (res: Result<
    Vec<String>,
    KokoroError,
>)
    ensures
        res matches Err(KokoroError::PhonemizationError(msg)) && msg@
            == "Kokoro phonemization requires the `espeak` feature (GPL-3.0-or-later, via espeak-ng), but it is disabled"@,
{
    Err(
        KokoroError::PhonemizationError(
            String::from_str(
                "Kokoro phonemization requires the `espeak` feature (GPL-3.0-or-later, via espeak-ng), but it is disabled",
            ),
        ),
    )
}

} // verus!
