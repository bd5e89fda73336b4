use vstd::prelude::*;

use crate::chars::{chars_of, window_matches};
use crate::error::{KokoroError, LoadFailure};
use crate::json::{
    distinct_member_names, lemma_member_absent, lemma_member_found_anywhere, member_in, members_of,
    names_distinct, parse_json, parsed_json, spec_i64, spec_member, spec_object, JsonValue,
};

verus! {

/// The token that opens and closes every sentence.
pub open spec fn boundary_token() -> Seq<char> {
    seq!['$']
}

// ---------------------------------------------------------------------------
// The model: a map from token text to id, and longest-match tokenization.
// ---------------------------------------------------------------------------

/// Length of the longest prefix of `s`, of at most `n` characters and at least
/// one, that is a token of `m`; 0 where there is none.
pub open spec fn longest_token_len(m: Map<Seq<char>, i64>, s: Seq<char>, n: nat) -> nat
    decreases n,
{
    if n == 0 {
        0
    } else if n <= s.len() && m.contains_key(s.take(n as int)) {
        n
    } else {
        longest_token_len(m, s, (n - 1) as nat)
    }
}

/// What `longest_token_len` returns is 0 or the length of a token that is a
/// prefix of `s`.
pub proof fn lemma_longest_token_len(m: Map<Seq<char>, i64>, s: Seq<char>, n: nat)
    ensures
        longest_token_len(m, s, n) <= n,
        longest_token_len(m, s, n) <= s.len(),
        longest_token_len(m, s, n) > 0 ==> m.contains_key(s.take(longest_token_len(m, s, n) as int)),
    decreases n,
{
    if n > 0 {
        lemma_longest_token_len(m, s, (n - 1) as nat);
    }
}

/// Lengths above `k` that start no token do not change the longest match.
proof fn lemma_longest_token_len_skip(m: Map<Seq<char>, i64>, s: Seq<char>, n: nat, k: nat)
    requires
        k <= n,
        forall|l: nat| k < l <= n ==> !(l <= s.len() && #[trigger] m.contains_key(s.take(l as int))),
    ensures
        longest_token_len(m, s, n) == longest_token_len(m, s, k),
    decreases n,
{
    if n > k {
        assert(!(n <= s.len() && m.contains_key(s.take(n as int))));
        lemma_longest_token_len_skip(m, s, (n - 1) as nat, k);
    }
}

/// Longest-match tokenization of `s`: at each position the longest token
/// that starts there is taken whole; a character that starts no token is
/// dropped.
pub open spec fn tokenize_spec(m: Map<Seq<char>, i64>, s: Seq<char>) -> Seq<i64>
    decreases s.len(),
{
    if s.len() == 0 {
        seq![]
    } else {
        let n: nat = longest_token_len(m, s, s.len());
        if n == 0 {
            tokenize_spec(m, s.drop_first())
        } else {
            proof {
                lemma_longest_token_len(m, s, s.len());
            }
            seq![m[s.take(n as int)]] + tokenize_spec(m, s.skip(n as int))
        }
    }
}

// ---------------------------------------------------------------------------
// Laws of tokenization.
// ---------------------------------------------------------------------------

/// Whether `id` is the id of some token of `m`.
pub open spec fn is_token_id(m: Map<Seq<char>, i64>, id: i64) -> bool {
    exists|t: Seq<char>| m.contains_key(t) && #[trigger] m[t] == id
}

/// Every id that tokenization yields is the id of a vocabulary token.
pub proof fn lemma_tokenize_yields_vocab_ids(m: Map<Seq<char>, i64>, s: Seq<char>)
    ensures
        forall|j: int|
            0 <= j < tokenize_spec(m, s).len() ==> is_token_id(m, #[trigger] tokenize_spec(m, s)[j]),
    decreases s.len(),
{
    if s.len() > 0 {
        let n: nat = longest_token_len(m, s, s.len());
        lemma_longest_token_len(m, s, s.len());
        if n == 0 {
            lemma_tokenize_yields_vocab_ids(m, s.drop_first());
            assert(tokenize_spec(m, s) == tokenize_spec(m, s.drop_first()));
        } else {
            let rest = tokenize_spec(m, s.skip(n as int));
            lemma_tokenize_yields_vocab_ids(m, s.skip(n as int));
            let t0 = s.take(n as int);
            assert(tokenize_spec(m, s) == seq![m[t0]] + rest);
            assert forall|j: int| 0 <= j < tokenize_spec(m, s).len() implies is_token_id(
                m,
                #[trigger] tokenize_spec(m, s)[j],
            ) by {
                if j == 0 {
                    assert(m.contains_key(t0) && m[t0] == tokenize_spec(m, s)[0]);
                } else {
                    assert(tokenize_spec(m, s)[j] == rest[j - 1]);
                }
            }
        }
    }
}

/// Tokenization yields at most one id per character.
pub proof fn lemma_tokenize_len(m: Map<Seq<char>, i64>, s: Seq<char>)
    ensures
        tokenize_spec(m, s).len() <= s.len(),
    decreases s.len(),
{
    if s.len() > 0 {
        let n: nat = longest_token_len(m, s, s.len());
        lemma_longest_token_len(m, s, s.len());
        if n == 0 {
            lemma_tokenize_len(m, s.drop_first());
        } else {
            lemma_tokenize_len(m, s.skip(n as int));
        }
    }
}

/// A character that starts no token is skipped: tokenizing it followed by
/// `rest` yields what tokenizing `rest` does.
pub proof fn lemma_unknown_char_skipped(m: Map<Seq<char>, i64>, c: char, rest: Seq<char>)
    requires
        forall|t: Seq<char>| #[trigger] m.contains_key(t) && t.len() > 0 ==> t[0] != c,
    ensures
        tokenize_spec(m, seq![c] + rest) == tokenize_spec(m, rest),
{
    let s = seq![c] + rest;
    let n: nat = longest_token_len(m, s, s.len());
    lemma_longest_token_len(m, s, s.len());
    if n > 0 {
        assert(s.take(n as int)[0] == c);
        assert(m.contains_key(s.take(n as int)));
    }
    assert(s.drop_first() =~= rest);
}

/// A token at the start of the text is taken whole, as one id, unless a
/// longer token starts there as well.
pub proof fn lemma_token_matched_whole(m: Map<Seq<char>, i64>, t: Seq<char>, rest: Seq<char>)
    requires
        m.contains_key(t),
        t.len() > 0,
        forall|n: nat|
            t.len() < n <= t.len() + rest.len() ==> !#[trigger] m.contains_key(
                (t + rest).take(n as int),
            ),
    ensures
        tokenize_spec(m, t + rest) == seq![m[t]] + tokenize_spec(m, rest),
{
    let s = t + rest;
    assert forall|l: nat| t.len() < l <= s.len() implies !(l <= s.len()
        && #[trigger] m.contains_key(s.take(l as int))) by {}
    lemma_longest_token_len_skip(m, s, s.len(), t.len());
    assert(s.take(t.len() as int) =~= t);
    assert(s.skip(t.len() as int) =~= rest);
}

/// The map that inserting `entries` one after another into an empty map
/// yields: where a token repeats, its last id stands.
pub open spec fn map_of_entries(entries: Seq<(Seq<char>, i64)>) -> Map<Seq<char>, i64>
    decreases entries.len(),
{
    if entries.len() == 0 {
        Map::empty()
    } else {
        map_of_entries(entries.drop_last()).insert(entries.last().0, entries.last().1)
    }
}

// ---------------------------------------------------------------------------
// Reading the vocabulary out of a tokenizer document.
// ---------------------------------------------------------------------------

/// The members of the `model.vocab` object of a tokenizer document.
pub open spec fn vocab_members(doc: JsonValue) -> Option<Seq<(String, JsonValue)>> {
    match spec_member(doc, "model"@) {
        Some(model) => match spec_member(model, "vocab"@) {
            Some(vocab) => spec_object(vocab),
            None => None,
        },
        None => None,
    }
}

/// The token of the first member, in object order, whose value is no integer
/// that fits in `i64`.
pub open spec fn first_non_integer(members: Seq<(String, JsonValue)>) -> Option<Seq<char>>
    decreases members.len(),
{
    if members.len() == 0 {
        None
    } else if spec_i64(members[0].1) is None {
        Some(members[0].0@)
    } else {
        first_non_integer(members.drop_first())
    }
}

/// Each member as a (token, id) pair.
pub open spec fn integer_entries(members: Seq<(String, JsonValue)>) -> Seq<(Seq<char>, i64)> {
    members.map_values(|e: (String, JsonValue)| (e.0@, spec_i64(e.1)->0))
}

/// What loading the vocabulary of the tokenizer document `bytes` gives: the
/// error, or the token map of a vocabulary.
pub enum VocabOutcome {
    InvalidJson,
    MissingVocabObject,
    NonIntegerId(Seq<char>),
    MissingBosToken,
    Loaded(Map<Seq<char>, i64>),
}

pub open spec fn vocab_outcome(bytes: Seq<u8>) -> VocabOutcome {
    match parsed_json(bytes) {
        None => VocabOutcome::InvalidJson,
        Some(doc) => document_outcome(doc),
    }
}

/// What loading the vocabulary of the parsed tokenizer document `doc` gives.
pub open spec fn document_outcome(doc: JsonValue) -> VocabOutcome {
    match vocab_members(doc) {
        None => VocabOutcome::MissingVocabObject,
        Some(members) => match first_non_integer(members) {
            Some(token) => VocabOutcome::NonIntegerId(token),
            None => {
                let m = map_of_entries(integer_entries(members));
                if m.contains_key(boundary_token()) {
                    VocabOutcome::Loaded(m)
                } else {
                    VocabOutcome::MissingBosToken
                }
            },
        },
    }
}

/// Whether `res` is what `outcome` says: the error it names, or a
/// well-formed vocabulary with its token map.
pub open spec fn vocab_result_is(res: Result<Vocab, KokoroError>, outcome: VocabOutcome) -> bool {
    match outcome {
        VocabOutcome::InvalidJson => res matches Err(
            KokoroError::FailedToLoadResource(LoadFailure::InvalidJson(_)),
        ),
        VocabOutcome::MissingVocabObject => res matches Err(
            KokoroError::FailedToLoadResource(LoadFailure::MissingVocabObject),
        ),
        VocabOutcome::NonIntegerId(token) => res matches Err(
            KokoroError::FailedToLoadResource(LoadFailure::NonIntegerId(found)),
        ) && found@ == token,
        VocabOutcome::MissingBosToken => res matches Err(
            KokoroError::FailedToLoadResource(LoadFailure::MissingBosToken),
        ),
        VocabOutcome::Loaded(m) => res matches Ok(v) && v.wf() && v@ == m,
    }
}

// ---------------------------------------------------------------------------
// Laws of loading: what the document's members become.
// ---------------------------------------------------------------------------

/// The position of the member that `member_in` finds.
proof fn lemma_member_in_position(members: Seq<(String, JsonValue)>, key: Seq<char>) -> (i: int)
    requires
        member_in(members, key) is Some,
    ensures
        0 <= i < members.len(),
        members[i].0@ == key,
        member_in(members, key) == Some(members[i].1),
    decreases members.len(),
{
    if members[0].0@ == key {
        0
    } else {
        let j = lemma_member_in_position(members.drop_first(), key);
        assert(members.drop_first()[j] == members[j + 1]);
        j + 1
    }
}

/// Of entries with distinct tokens, each entry's id is what the map holds.
proof fn lemma_map_of_entries_at(entries: Seq<(Seq<char>, i64)>, i: int)
    requires
        0 <= i < entries.len(),
        forall|a: int, b: int|
            0 <= a < entries.len() && 0 <= b < entries.len() && a != b ==> #[trigger] entries[a].0
                != #[trigger] entries[b].0,
    ensures
        map_of_entries(entries).contains_key(entries[i].0),
        map_of_entries(entries)[entries[i].0] == entries[i].1,
    decreases entries.len(),
{
    let last = entries.len() - 1;
    if i != last {
        let front = entries.drop_last();
        assert forall|a: int, b: int|
            0 <= a < front.len() && 0 <= b < front.len() && a != b implies #[trigger] front[a].0
            != #[trigger] front[b].0 by {
            assert(front[a] == entries[a] && front[b] == entries[b]);
        }
        assert(front[i] == entries[i]);
        lemma_map_of_entries_at(front, i);
        assert(entries[last].0 != entries[i].0);
    }
}

/// A nonempty token of a map tokenizes whole, to its own id.
pub proof fn lemma_token_tokenizes_to_its_id(m: Map<Seq<char>, i64>, t: Seq<char>)
    requires
        m.contains_key(t),
        t.len() > 0,
    ensures
        tokenize_spec(m, t) == seq![m[t]],
{
    assert(t.take(t.len() as int) =~= t);
    assert(longest_token_len(m, t, t.len()) == t.len());
    assert(t.skip(t.len() as int) =~= Seq::<char>::empty());
    assert(tokenize_spec(m, t.skip(t.len() as int)) =~= Seq::<i64>::empty());
    assert(seq![m[t]] + Seq::<i64>::empty() =~= seq![m[t]]);
}

/// Whether `m` holds each member's name with the member's integer value.
pub open spec fn holds_each_member(m: Map<Seq<char>, i64>, members: Seq<(String, JsonValue)>) -> bool {
    forall|i: int|
        0 <= i < members.len() ==> m.contains_key(#[trigger] members[i].0@) && m[members[i].0@]
            == spec_i64(members[i].1)->0
}

/// Members with distinct names are each held, with their values, by the map
/// that inserting them one after another builds.
proof fn lemma_members_held(members: Seq<(String, JsonValue)>)
    requires
        distinct_member_names(members),
    ensures
        holds_each_member(map_of_entries(integer_entries(members)), members),
{
    let entries = integer_entries(members);
    assert forall|a: int, b: int|
        0 <= a < entries.len() && 0 <= b < entries.len() && a != b implies #[trigger] entries[a].0
        != #[trigger] entries[b].0 by {
        assert(entries[a].0 == members[a].0@ && entries[b].0 == members[b].0@);
    }
    assert forall|i: int| 0 <= i < members.len() implies map_of_entries(entries).contains_key(
        #[trigger] members[i].0@,
    ) && map_of_entries(entries)[members[i].0@] == spec_i64(members[i].1)->0 by {
        assert(entries[i] == (members[i].0@, spec_i64(members[i].1)->0));
        lemma_map_of_entries_at(entries, i);
    }
}

/// In a document without repeated member names, the `model.vocab` object has
/// none either.
proof fn lemma_vocab_members_distinct(doc: JsonValue)
    requires
        names_distinct(doc),
        vocab_members(doc) is Some,
    ensures
        distinct_member_names(vocab_members(doc)->0),
{
    let model = spec_member(doc, "model"@)->0;
    if let JsonValue::Object(entries) = doc {
        let i = lemma_member_in_position(entries@, "model"@);
        assert(names_distinct(entries@[i].1));
    }
    if let JsonValue::Object(entries) = model {
        let i = lemma_member_in_position(entries@, "vocab"@);
        assert(names_distinct(entries@[i].1));
    }
}

/// A nonempty member name of the vocabulary object tokenizes whole, to
/// exactly the member's value, in a vocabulary that holds each member.
pub proof fn lemma_loaded_member_tokenizes_whole(
    m: Map<Seq<char>, i64>,
    members: Seq<(String, JsonValue)>,
    name: Seq<char>,
    id: i64,
)
    requires
        holds_each_member(m, members),
        member_in(members, name) matches Some(v) && spec_i64(v) == Some(id),
        name.len() > 0,
    ensures
        m.contains_key(name),
        m[name] == id,
        tokenize_spec(m, name) == seq![id],
{
    let i = lemma_member_in_position(members, name);
    assert(m.contains_key(members[i].0@));
    lemma_token_tokenizes_to_its_id(m, name);
}

/// The vocabulary object is found by name: where the document's members, and
/// its `model` object's members, have distinct names, the vocabulary members
/// are those of the object named `vocab` inside the member named `model`,
/// wherever each stands among its siblings.
pub proof fn lemma_vocab_members_by_name(doc: JsonValue, i: int, j: int)
    requires
        doc is Object,
        distinct_member_names(members_of(doc)),
        0 <= i < members_of(doc).len(),
        members_of(doc)[i].0@ == "model"@,
        members_of(doc)[i].1 is Object,
        distinct_member_names(members_of(members_of(doc)[i].1)),
        0 <= j < members_of(members_of(doc)[i].1).len(),
        members_of(members_of(doc)[i].1)[j].0@ == "vocab"@,
    ensures
        vocab_members(doc) == spec_object(members_of(members_of(doc)[i].1)[j].1),
{
    lemma_member_found_anywhere(members_of(doc), i);
    lemma_member_found_anywhere(members_of(members_of(doc)[i].1), j);
}

/// A document with no member named `model` has no vocabulary object.
pub proof fn lemma_vocab_members_need_model(doc: JsonValue)
    requires
        forall|i: int| 0 <= i < members_of(doc).len() ==> (#[trigger] members_of(doc)[i]).0@ != "model"@,
    ensures
        vocab_members(doc) is None,
{
    lemma_member_absent(members_of(doc), "model"@);
}

/// The boundary id of a vocabulary that holds each member (the id that opens
/// and closes every sentence) is the value of the member `$`, and `$`
/// tokenizes to it.
pub proof fn lemma_boundary_id_is_member_value(
    m: Map<Seq<char>, i64>,
    members: Seq<(String, JsonValue)>,
    id: i64,
)
    requires
        holds_each_member(m, members),
        member_in(members, boundary_token()) matches Some(v) && spec_i64(v) == Some(id),
    ensures
        m[boundary_token()] == id,
        tokenize_spec(m, boundary_token()) == seq![id],
{
    lemma_loaded_member_tokenizes_whole(m, members, boundary_token(), id);
}

// ---------------------------------------------------------------------------
// The token table: parallel vectors of distinct tokens and their ids.
// ---------------------------------------------------------------------------

/// The map that a table of distinct tokens and their ids stands for.
pub open spec fn table_map(tokens: Seq<Vec<char>>, ids: Seq<i64>) -> Map<Seq<char>, i64> {
    Map::new(
        |t: Seq<char>| exists|i: int| 0 <= i < tokens.len() && #[trigger] tokens[i]@ == t,
        |t: Seq<char>| ids[choose|i: int| 0 <= i < tokens.len() && #[trigger] tokens[i]@ == t],
    )
}

pub open spec fn distinct_tokens(tokens: Seq<Vec<char>>) -> bool {
    forall|i: int, j: int|
        0 <= i < tokens.len() && 0 <= j < tokens.len() && i != j ==> #[trigger] tokens[i]@
            != #[trigger] tokens[j]@
}

proof fn lemma_table_map_at(tokens: Seq<Vec<char>>, ids: Seq<i64>, j: int)
    requires
        distinct_tokens(tokens),
        tokens.len() == ids.len(),
        0 <= j < tokens.len(),
    ensures
        table_map(tokens, ids).contains_key(tokens[j]@),
        table_map(tokens, ids)[tokens[j]@] == ids[j],
{
    let t = tokens[j]@;
    assert(exists|i: int| 0 <= i < tokens.len() && #[trigger] tokens[i]@ == t);
    let i: int = choose|i: int| 0 <= i < tokens.len() && #[trigger] tokens[i]@ == t;
    assert(i == j);
}

proof fn lemma_table_map_update(tokens: Seq<Vec<char>>, ids: Seq<i64>, j: int, id: i64)
    requires
        distinct_tokens(tokens),
        tokens.len() == ids.len(),
        0 <= j < tokens.len(),
    ensures
        table_map(tokens, ids.update(j, id)) =~= table_map(tokens, ids).insert(tokens[j]@, id),
{
    let m0 = table_map(tokens, ids);
    let m1 = table_map(tokens, ids.update(j, id));
    lemma_table_map_at(tokens, ids.update(j, id), j);
    assert forall|t: Seq<char>| #[trigger] m1.contains_key(t) && t != tokens[j]@ implies m1[t]
        == m0[t] by {
        let i: int = choose|i: int| 0 <= i < tokens.len() && #[trigger] tokens[i]@ == t;
        lemma_table_map_at(tokens, ids.update(j, id), i);
        lemma_table_map_at(tokens, ids, i);
    }
}

proof fn lemma_table_map_push(tokens: Seq<Vec<char>>, ids: Seq<i64>, token: Vec<char>, id: i64)
    requires
        distinct_tokens(tokens),
        tokens.len() == ids.len(),
        !table_map(tokens, ids).contains_key(token@),
    ensures
        distinct_tokens(tokens.push(token)),
        table_map(tokens.push(token), ids.push(id)) =~= table_map(tokens, ids).insert(token@, id),
{
    let t2 = tokens.push(token);
    let i2 = ids.push(id);
    assert forall|i: int| 0 <= i < tokens.len() implies #[trigger] tokens[i]@ != token@ by {
        if tokens[i]@ == token@ {
            assert(table_map(tokens, ids).contains_key(token@));
        }
    }
    assert(distinct_tokens(t2)) by {
        assert forall|i: int, j: int|
            0 <= i < t2.len() && 0 <= j < t2.len() && i != j implies #[trigger] t2[i]@
            != #[trigger] t2[j]@ by {
            if i < tokens.len() && j < tokens.len() {
                assert(t2[i] == tokens[i] && t2[j] == tokens[j]);
            } else if i < tokens.len() {
                assert(t2[i] == tokens[i]);
            } else {
                assert(t2[j] == tokens[j]);
            }
        }
    }
    let m0 = table_map(tokens, ids);
    let m1 = table_map(t2, i2);
    lemma_table_map_at(t2, i2, tokens.len() as int);
    assert forall|t: Seq<char>| #[trigger] m1.contains_key(t) <==> m0.insert(token@, id).contains_key(
        t,
    ) by {
        if m1.contains_key(t) && t != token@ {
            let i: int = choose|i: int| 0 <= i < t2.len() && #[trigger] t2[i]@ == t;
            assert(i < tokens.len());
            assert(tokens[i]@ == t);
        }
        if m0.contains_key(t) {
            let i: int = choose|i: int| 0 <= i < tokens.len() && #[trigger] tokens[i]@ == t;
            assert(t2[i]@ == t);
        }
    }
    assert forall|t: Seq<char>| #[trigger] m1.contains_key(t) && t != token@ implies m1[t]
        == m0[t] by {
        let i: int = choose|i: int| 0 <= i < t2.len() && #[trigger] t2[i]@ == t;
        assert(i < tokens.len());
        assert(tokens[i]@ == t);
        lemma_table_map_at(t2, i2, i);
        lemma_table_map_at(tokens, ids, i);
    }
}

/// Position of the token `text[start..start + len]` in `tokens`.
fn find_token(tokens: &Vec<Vec<char>>, text: &Vec<char>, start: usize, len: usize) -> (res: Option<
    usize,
>)
    requires
        start + len <= text.len(),
    ensures
        match res {
            Some(j) => j < tokens.len() && tokens@[j as int]@ == text@.subrange(
                start as int,
                start + len,
            ),
            None => forall|j: int|
                0 <= j < tokens.len() ==> #[trigger] tokens@[j]@ != text@.subrange(
                    start as int,
                    start + len,
                ),
        },
{
    let mut j: usize = 0;
    while j < tokens.len()
        invariant
            start + len <= text.len(),
            0 <= j <= tokens.len(),
            forall|k: int|
                0 <= k < j ==> #[trigger] tokens@[k]@ != text@.subrange(start as int, start + len),
        decreases tokens.len() - j,
    {
        if window_matches(&tokens[j], text, start, len) {
            return Some(j);
        }
        j += 1;
    }
    None
}

// ---------------------------------------------------------------------------
// The vocabulary.
// ---------------------------------------------------------------------------

/// The Kokoro vocabulary: phoneme symbols and the ids the model knows them by.
pub struct Vocab {
    tokens: Vec<Vec<char>>,
    ids: Vec<i64>,
    bos_id: i64,
    max_token_chars: usize,
}

impl View for Vocab {
    type V = Map<Seq<char>, i64>;

    closed spec fn view(&self) -> Map<Seq<char>, i64> {
        table_map(self.tokens@, self.ids@)
    }
}

impl Vocab {
    /// Well-formedness: the tokens are distinct, none is longer than the
    /// longest-token bound that tokenization starts from, and the id kept for
    /// sentence boundaries is that of `$`.
    pub closed spec fn wf(&self) -> bool {
        &&& self.tokens.len() == self.ids.len()
        &&& distinct_tokens(self.tokens@)
        &&& forall|i: int| 0 <= i < self.tokens.len() ==> #[trigger] self.tokens@[i]@.len() <= self.max_token_chars
        &&& self@.contains_key(boundary_token())
        &&& self@[boundary_token()] == self.bos_id
    }

    /// Reads the vocabulary out of the tokenizer document `bytes`: the
    /// integer-valued members of its `model.vocab` object. Fails where the
    /// document is no JSON, has no `model.vocab` object, holds a member whose
    /// value is no integer, or has no `$` token.
    pub fn from_json(bytes: &[u8]) -> (res: Result<Vocab, KokoroError>)
        ensures
            vocab_result_is(res, vocab_outcome(bytes@)),
            res matches Ok(v) ==> holds_each_member(
                v@,
                vocab_members(parsed_json(bytes@)->0)->0,
            ),
    {
        match parse_json(bytes) {
            Ok(doc) => Vocab::from_document(&doc),
            Err(e) => Err(KokoroError::FailedToLoadResource(LoadFailure::InvalidJson(e))),
        }
    }

    /// Reads the vocabulary out of the parsed tokenizer document `doc`: the
    /// integer-valued members of its `model.vocab` object. Fails where there is
    /// no `model.vocab` object, where a member's value is no integer, or where
    /// there is no `$` token.
    pub fn from_document(doc: &JsonValue) -> (res: Result<Vocab, KokoroError>)
        ensures
            vocab_result_is(res, document_outcome(*doc)),
            names_distinct(*doc) ==> (res matches Ok(v) ==> holds_each_member(
                v@,
                vocab_members(*doc)->0,
            )),
    {
        let model_key = String::from_str("model");
        let vocab_key = String::from_str("vocab");
        let members = match doc.member(&model_key) {
            Some(model) => match model.member(&vocab_key) {
                Some(vocab) => match vocab.as_object() {
                    Some(members) => members,
                    None => {
                        return Err(KokoroError::FailedToLoadResource(LoadFailure::MissingVocabObject));
                    },
                },
                None => {
                    return Err(KokoroError::FailedToLoadResource(LoadFailure::MissingVocabObject));
                },
            },
            None => {
                return Err(KokoroError::FailedToLoadResource(LoadFailure::MissingVocabObject));
            },
        };
        let ghost ms = members@;
        let ghost entries = integer_entries(ms);
        assert(vocab_members(*doc) == Some(ms));

        let mut tokens: Vec<Vec<char>> = Vec::new();
        let mut ids: Vec<i64> = Vec::new();
        let mut max_token_chars: usize = 0;
        let mut i: usize = 0;
        assert(ms.skip(0) =~= ms);
        assert(table_map(tokens@, ids@) =~= map_of_entries(entries.take(0)));
        while i < members.len()
            invariant
                vocab_members(*doc) == Some(ms),
                ms == members@,
                entries == integer_entries(ms),
                0 <= i <= members.len(),
                first_non_integer(ms) == first_non_integer(ms.skip(i as int)),
                tokens.len() == ids.len(),
                distinct_tokens(tokens@),
                forall|k: int| 0 <= k < tokens.len() ==> #[trigger] tokens@[k]@.len() <= max_token_chars,
                table_map(tokens@, ids@) == map_of_entries(entries.take(i as int)),
            decreases members.len() - i,
        {
            assert(ms.skip(i as int).drop_first() =~= ms.skip(i + 1));
            assert(ms.skip(i as int)[0] == ms[i as int]);
            let id: i64 = match members[i].1.as_i64() {
                Some(id) => id,
                None => {
                    let token = members[i].0.clone();
                    return Err(KokoroError::FailedToLoadResource(LoadFailure::NonIntegerId(token)));
                },
            };
            let token = chars_of(members[i].0.as_str());
            let n: usize = token.len();
            assert(token@.subrange(0, n as int) =~= token@);
            let ghost before = table_map(tokens@, ids@);
            match find_token(&tokens, &token, 0, n) {
                Some(j) => {
                    proof {
                        lemma_table_map_update(tokens@, ids@, j as int, id);
                    }
                    ids.set(j, id);
                },
                None => {
                    proof {
                        if before.contains_key(token@) {
                            let k: int = choose|k: int|
                                0 <= k < tokens@.len() && #[trigger] tokens@[k]@ == token@;
                            assert(tokens@[k]@ != token@.subrange(0, n as int));
                        }
                        lemma_table_map_push(tokens@, ids@, token, id);
                    }
                    if n > max_token_chars {
                        max_token_chars = n;
                    }
                    tokens.push(token);
                    ids.push(id);
                },
            }
            proof {
                assert(entries.take(i + 1).drop_last() =~= entries.take(i as int));
                assert(entries.take(i + 1).last() == (token@, id));
            }
            i += 1;
        }
        assert(entries.take(ms.len() as int) =~= entries);
        assert(first_non_integer(ms.skip(ms.len() as int)) is None);

        let boundary: Vec<char> = vec!['$'];
        assert(boundary@ =~= boundary_token());
        assert(boundary@.subrange(0, 1) =~= boundary@);
        match find_token(&tokens, &boundary, 0, 1) {
            Some(j) => {
                proof {
                    lemma_table_map_at(tokens@, ids@, j as int);
                }
                let bos_id: i64 = ids[j];
                proof {
                    if names_distinct(*doc) {
                        lemma_vocab_members_distinct(*doc);
                        lemma_members_held(ms);
                    }
                }
                Ok(Vocab { tokens, ids, bos_id, max_token_chars })
            },
            None => {
                proof {
                    if table_map(tokens@, ids@).contains_key(boundary_token()) {
                        let k: int = choose|k: int|
                            0 <= k < tokens@.len() && #[trigger] tokens@[k]@ == boundary_token();
                        assert(tokens@[k]@ != boundary@.subrange(0, 1));
                    }
                }
                Err(KokoroError::FailedToLoadResource(LoadFailure::MissingBosToken))
            },
        }
    }

    /// The id of the token that opens a sentence: that of `$`.
    pub fn bos_id(&self) -> (id: i64)
        requires
            self.wf(),
        ensures
            self@.contains_key(boundary_token()),
            id == self@[boundary_token()],
    {
        self.bos_id
    }

    /// The id of the token that closes a sentence: that of `$` too.
    pub fn eos_id(&self) -> (id: i64)
        requires
            self.wf(),
        ensures
            self@.contains_key(boundary_token()),
            id == self@[boundary_token()],
    {
        self.bos_id
    }
    /// No token is longer than the bound that tokenization starts from.
    proof fn lemma_token_len_bound(&self, t: Seq<char>)
        requires
            self.wf(),
            self@.contains_key(t),
        ensures
            t.len() <= self.max_token_chars,
    {
        let i: int = choose|i: int| 0 <= i < self.tokens@.len() && #[trigger] self.tokens@[i]@ == t;
        assert(self.tokens@[i]@.len() <= self.max_token_chars);
    }

    /// The longest token that starts at `chars[i]`: its length and id, or
    /// `None` where no token starts there.
    fn longest_match_at(&self, chars: &Vec<char>, i: usize) -> (res: Option<(usize, i64)>)
        requires
            self.wf(),
            i < chars.len(),
        ensures
            ({
                let s = chars@.skip(i as int);
                let n: nat = longest_token_len(self@, s, s.len());
                match res {
                    Some((len, id)) => len == n && n > 0 && self@.contains_key(s.take(n as int))
                        && id == self@[s.take(n as int)],
                    None => n == 0,
                }
            }),
    {
        let ghost s = chars@.skip(i as int);
        let ghost m = self@;
        let remaining: usize = chars.len() - i;
        let limit: usize = if self.max_token_chars < remaining {
            self.max_token_chars
        } else {
            remaining
        };
        proof {
            assert forall|l: nat| limit < l <= s.len() implies !(l <= s.len()
                && #[trigger] m.contains_key(s.take(l as int))) by {
                if m.contains_key(s.take(l as int)) {
                    self.lemma_token_len_bound(s.take(l as int));
                }
            }
            lemma_longest_token_len_skip(m, s, s.len(), limit as nat);
        }
        let mut len: usize = limit;
        while len > 0
            invariant
                self.wf(),
                m == self@,
                s == chars@.skip(i as int),
                i < chars.len(),
                len <= limit,
                limit <= chars.len() - i,
                longest_token_len(m, s, s.len()) == longest_token_len(m, s, len as nat),
            decreases len,
        {
            assert(s.take(len as int) =~= chars@.subrange(i as int, i + len));
            match find_token(&self.tokens, chars, i, len) {
                Some(j) => {
                    proof {
                        lemma_table_map_at(self.tokens@, self.ids@, j as int);
                    }
                    return Some((len, self.ids[j]));
                },
                None => {
                    proof {
                        if m.contains_key(s.take(len as int)) {
                            let k: int = choose|k: int|
                                0 <= k < self.tokens@.len() && #[trigger] self.tokens@[k]@ == s.take(
                                    len as int,
                                );
                            assert(self.tokens@[k]@ != chars@.subrange(i as int, i + len));
                        }
                    }
                    len -= 1;
                },
            }
        }
        None
    }

    /// Longest-match tokenization: at each position the longest vocabulary
    /// symbol that starts there is taken whole, so that multi-character
    /// phoneme symbols are not split; a character that starts no symbol is
    /// skipped.
    pub fn tokenize(&self, phonemes: &str) -> (ids: Vec<i64>)
        requires
            self.wf(),
        ensures
            ids@ == tokenize_spec(self@, phonemes@),
    {
        let chars = chars_of(phonemes);
        let ghost m = self@;
        let mut ids: Vec<i64> = Vec::new();
        let mut i: usize = 0;
        assert(chars@.skip(0) =~= chars@);
        assert(ids@ + tokenize_spec(m, chars@) =~= tokenize_spec(m, chars@));
        while i < chars.len()
            invariant
                self.wf(),
                m == self@,
                chars@ == phonemes@,
                0 <= i <= chars.len(),
                ids@ + tokenize_spec(m, chars@.skip(i as int)) == tokenize_spec(m, chars@),
            decreases chars.len() - i,
        {
            let ghost s = chars@.skip(i as int);
            let ghost before = ids@;
            proof {
                lemma_longest_token_len(m, s, s.len());
            }
            match self.longest_match_at(&chars, i) {
                Some((len, id)) => {
                    ids.push(id);
                    proof {
                        assert(s.skip(len as int) =~= chars@.skip(i + len));
                        assert(ids@ + tokenize_spec(m, s.skip(len as int)) =~= before + (seq![id]
                            + tokenize_spec(m, s.skip(len as int))));
                    }
                    i += len;
                },
                None => {
                    assert(s.drop_first() =~= chars@.skip(i + 1));
                    i += 1;
                },
            }
        }
        assert(chars@.skip(i as int) =~= Seq::<char>::empty());
        assert(ids@ + Seq::<i64>::empty() =~= ids@);
        ids
    }

    /// The ids that the model is given for one sentence: the boundary id, the
    /// sentence's tokens, and the boundary id again.
    pub fn sentence_token_ids(&self, phonemes: &str) -> (ids: Vec<i64>)
        requires
            self.wf(),
        ensures
            ids@ == seq![self@[boundary_token()]] + tokenize_spec(self@, phonemes@) + seq![
                self@[boundary_token()],
            ],
    {
        let mut ids: Vec<i64> = Vec::new();
        ids.push(self.bos_id());
        let mut body = self.tokenize(phonemes);
        ids.append(&mut body);
        ids.push(self.eos_id());
        ids
    }
}

} // verus!
