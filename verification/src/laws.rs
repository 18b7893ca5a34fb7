//! The laws the settlement core obeys, stated once and proved for every
//! input, over the same spec functions the public contracts use.
use vstd::prelude::*;
use crate::DICTIONARY_VALUES;
use crate::MAX_TURNS;
use crate::derive::challenge_seq_of;
use crate::derive::lemma_challenge_seq_distinct_bounded;
use crate::dictionary::Dictionary;
use crate::digest::sha256_hex_of;
use crate::json::JsonVal;
use crate::json::answer_credits;
use crate::json::decimal_val;
use crate::json::doc_ok;
use crate::json::entries_of;
use crate::json::lookup_key;
use crate::json::parsed_turns;
use crate::json::lemma_scores_of_doc_domain;
use crate::json::player_entry_ok;
use crate::json::scores_of_doc;
use crate::json::turn_entry_ok;
use crate::json::turns_score;
use vstd::set_lib::lemma_int_range;
use vstd::set_lib::lemma_len_subset;
use vstd::set_lib::set_int_range;

verus! {

/// Challenge derivation is a pure function of the identity's characters (and
/// so of its bytes): identities with the same representation derive the same
/// sequence on every call, and one identity's sequence never depends on
/// another's.
pub proof fn lemma_derive_sequence_deterministic(a: Seq<char>, b: Seq<char>)
    requires
        a == b,
    ensures
        challenge_seq_of(a) == challenge_seq_of(b),
{
}

/// A derived sequence never repeats a challenge index, and every index is
/// below the dictionary bound.
pub proof fn lemma_challenge_seq_wellformed(identity: Seq<char>)
    ensures
        challenge_seq_of(identity).no_duplicates(),
        forall|i: int|
            0 <= i < challenge_seq_of(identity).len() ==> challenge_seq_of(identity)[i]
                < DICTIONARY_VALUES,
{
    lemma_challenge_seq_distinct_bounded(sha256_hex_of(identity));
}

/// Two presentations of the same turn hold the same two phrases, whatever
/// slot order each call's fresh bit chose: only the left/right assignment
/// varies.
pub proof fn lemma_turn_pair_stable(
    p1: Seq<Seq<char>>,
    p2: Seq<Seq<char>>,
    bot: Seq<char>,
    hot: Seq<char>,
    b1: int,
    b2: int,
)
    requires
        0 <= b1 < 2,
        0 <= b2 < 2,
        p1.len() == 2,
        p2.len() == 2,
        p1[b1] == bot,
        p1[1 - b1] == hot,
        p2[b2] == bot,
        p2[1 - b2] == hot,
    ensures
        forall|x: Seq<char>| p1.contains(x) <==> p2.contains(x),
{
    assert forall|x: Seq<char>| p1.contains(x) implies p2.contains(x) by {
        let i = choose|i: int| 0 <= i < p1.len() && p1[i] == x;
        if i == b1 {
            assert(p2[b2] == x);
        } else {
            assert(i == 1 - b1);
            assert(p2[1 - b2] == x);
        }
    }
    assert forall|x: Seq<char>| p2.contains(x) implies p1.contains(x) by {
        let i = choose|i: int| 0 <= i < p2.len() && p2[i] == x;
        if i == b2 {
            assert(p1[b1] == x);
        } else {
            assert(i == 1 - b2);
            assert(p1[1 - b1] == x);
        }
    }
}

/// When every turn entry credits, the score is the number of entries.
proof fn lemma_turns_score_all_credited(
    dict: Dictionary,
    idxs: Seq<u32>,
    turn_entries: Seq<(String, JsonVal)>,
)
    requires
        forall|i: int|
            0 <= i < turn_entries.len() ==> answer_credits(
                dict,
                idxs,
                (#[trigger] turn_entries[i]).0@,
                turn_entries[i].1,
            ),
    ensures
        turns_score(dict, idxs, turn_entries) == turn_entries.len(),
    decreases turn_entries.len(),
{
    if turn_entries.len() > 0 {
        assert(turn_entries[turn_entries.len() - 1] == turn_entries.last());
        lemma_turns_score_all_credited(dict, idxs, turn_entries.drop_last());
    }
}

/// When some turn entry does not credit, the score falls short of the number
/// of entries.
proof fn lemma_turns_score_missing_one(
    dict: Dictionary,
    idxs: Seq<u32>,
    turn_entries: Seq<(String, JsonVal)>,
    j: int,
)
    requires
        0 <= j < turn_entries.len(),
        !answer_credits(dict, idxs, turn_entries[j].0@, turn_entries[j].1),
    ensures
        turns_score(dict, idxs, turn_entries) < turn_entries.len(),
    decreases turn_entries.len(),
{
    crate::json::lemma_turns_score_le_len(dict, idxs, turn_entries.drop_last());
    if j == turn_entries.len() - 1 {
        assert(turn_entries.last() == turn_entries[j]);
    } else {
        assert(turn_entries.drop_last()[j] == turn_entries[j]);
        lemma_turns_score_missing_one(dict, idxs, turn_entries.drop_last(), j);
    }
}

/// A sequence of distinct integers drawn from `[0, bound)` has at most
/// `bound` elements.
proof fn lemma_distinct_bounded_len(vals: Seq<int>, bound: int)
    requires
        bound >= 0,
        vals.no_duplicates(),
        forall|i: int| 0 <= i < vals.len() ==> 0 <= #[trigger] vals[i] < bound,
    ensures
        vals.len() <= bound,
{
    vals.unique_seq_to_set();
    lemma_int_range(0, bound);
    assert forall|x: int| vals.to_set().contains(x) implies set_int_range(0, bound).contains(
        x,
    ) by {
        let i = choose|i: int| 0 <= i < vals.len() && vals[i] == x;
    }
    assert(vals.to_set().subset_of(set_int_range(0, bound)));
    lemma_len_subset(vals.to_set(), set_int_range(0, bound));
}

/// A perfect settlement: a full round of `MAX_TURNS` turn entries, each
/// claiming the true bot phrase, scores exactly `MAX_TURNS` — the score the
/// continuation's contract rewards with one mint and one badge publish, and
/// no refund.
pub proof fn lemma_perfect_round_scores_max(
    dict: Dictionary,
    idxs: Seq<u32>,
    turn_entries: Seq<(String, JsonVal)>,
)
    requires
        turn_entries.len() == MAX_TURNS,
        forall|i: int|
            0 <= i < turn_entries.len() ==> answer_credits(
                dict,
                idxs,
                (#[trigger] turn_entries[i]).0@,
                turn_entries[i].1,
            ),
    ensures
        turns_score(dict, idxs, turn_entries) == MAX_TURNS,
{
    lemma_turns_score_all_credited(dict, idxs, turn_entries);
}

/// An imperfect settlement: if every turn entry names a distinct turn below
/// `MAX_TURNS` but at least one entry's claim does not match the bot phrase,
/// the score stays below `MAX_TURNS` — the score the continuation's contract
/// answers with one refund and no mint or badge.
pub proof fn lemma_imperfect_round_scores_below_max(
    dict: Dictionary,
    idxs: Seq<u32>,
    turn_entries: Seq<(String, JsonVal)>,
    j: int,
)
    requires
        parsed_turns(turn_entries).no_duplicates(),
        forall|i: int|
            0 <= i < turn_entries.len() ==> decimal_val((#[trigger] turn_entries[i]).0@)
                < MAX_TURNS,
        0 <= j < turn_entries.len(),
        !answer_credits(dict, idxs, turn_entries[j].0@, turn_entries[j].1),
    ensures
        turns_score(dict, idxs, turn_entries) < MAX_TURNS,
{
    assert forall|i: int|
        0 <= i < parsed_turns(turn_entries).len() implies 0 <= #[trigger] parsed_turns(
        turn_entries,
    )[i] < MAX_TURNS by {
        assert(parsed_turns(turn_entries)[i] == decimal_val(turn_entries[i].0@) as int);
    }
    lemma_distinct_bounded_len(parsed_turns(turn_entries), MAX_TURNS as int);
    lemma_turns_score_missing_one(dict, idxs, turn_entries, j);
}

/// A settled score always lies in `[0, MAX_TURNS]`: the turn entries name
/// distinct turns below `MAX_TURNS`, so there are at most `MAX_TURNS` of
/// them, and each credits at most one point.
pub proof fn lemma_score_in_range(
    dict: Dictionary,
    idxs: Seq<u32>,
    turn_entries: Seq<(String, JsonVal)>,
)
    requires
        parsed_turns(turn_entries).no_duplicates(),
        forall|i: int|
            0 <= i < turn_entries.len() ==> decimal_val((#[trigger] turn_entries[i]).0@)
                < MAX_TURNS,
    ensures
        turns_score(dict, idxs, turn_entries) <= MAX_TURNS,
{
    assert forall|i: int|
        0 <= i < parsed_turns(turn_entries).len() implies 0 <= #[trigger] parsed_turns(
        turn_entries,
    )[i] < MAX_TURNS by {
        assert(parsed_turns(turn_entries)[i] == decimal_val(turn_entries[i].0@) as int);
    }
    lemma_distinct_bounded_len(parsed_turns(turn_entries), MAX_TURNS as int);
    crate::json::lemma_turns_score_le_len(dict, idxs, turn_entries);
}

/// A ledger entry, once written, is never changed by a later acceptable
/// settlement: an acceptable document never names a settled identity, so a
/// settled score survives the continuation's write untouched.
pub proof fn lemma_settled_score_immutable(
    dict: Dictionary,
    doc: JsonVal,
    ledger: Map<Seq<char>, usize>,
    id: Seq<char>,
)
    requires
        doc_ok(doc, ledger),
        ledger.contains_key(id),
    ensures
        ledger.union_prefer_right(scores_of_doc(dict, entries_of(doc))).contains_key(id),
        ledger.union_prefer_right(scores_of_doc(dict, entries_of(doc)))[id] == ledger[id],
{
    lemma_scores_of_doc_domain(dict, entries_of(doc), id);
    if scores_of_doc(dict, entries_of(doc)).contains_key(id) {
        let j = choose|j: int|
            0 <= j < entries_of(doc).len() && (#[trigger] entries_of(doc)[j]).0@ == id;
        assert(player_entry_ok(entries_of(doc)[j].0@, entries_of(doc)[j].1, ledger));
    }
}

/// A fetched document that names any turn index at or above `MAX_TURNS` for
/// a player is not acceptable: the whole continuation fails and, by its
/// contract, no ledger entry is written for that call.
pub proof fn lemma_illegal_turn_index_rejected(
    doc: JsonVal,
    ledger: Map<Seq<char>, usize>,
    i: int,
    j: int,
)
    requires
        0 <= i < entries_of(doc).len(),
        0 <= j < entries_of(
            lookup_key(entries_of(entries_of(doc)[i].1), "HotOrBot"@)->Some_0,
        ).len(),
        decimal_val(
            entries_of(lookup_key(entries_of(entries_of(doc)[i].1), "HotOrBot"@)->Some_0)[j].0@,
        ) >= MAX_TURNS,
    ensures
        !doc_ok(doc, ledger),
{
    let v = entries_of(doc)[i].1;
    let tv = lookup_key(entries_of(v), "HotOrBot"@)->Some_0;
    if player_entry_ok(entries_of(doc)[i].0@, v, ledger) {
        assert(turn_entry_ok(
            challenge_seq_of(entries_of(doc)[i].0@),
            entries_of(tv)[j].0@,
            entries_of(tv)[j].1,
        ));
    }
}

} // verus!
