//! The shape of the externally fetched answer document, and the verified
//! interpretation of it: which documents are well-formed, and what score each
//! player entry earns. The data is untrusted until checked here against the
//! ledger state and the recomputed challenge sequence.
use vstd::prelude::*;
use crate::MAX_TURNS;
use crate::dictionary::Dictionary;
use crate::derive::challenge_seq_of;

verus! {

/// A JSON-like document as the core reads it: text, an object of key/value
/// entries, or anything else (numbers, arrays, booleans, null), which the
/// core never looks into.
pub enum JsonVal {
    Text(String),
    Object(Vec<(String, JsonVal)>),
    Other,
}

/// The entries of an object (arbitrary when the value is not an object).
pub open spec fn entries_of(v: JsonVal) -> Seq<(String, JsonVal)> {
    v->Object_0@
}

/// The keys of an object's entries.
pub open spec fn keys_of(entries: Seq<(String, JsonVal)>) -> Seq<Seq<char>> {
    entries.map_values(|e: (String, JsonVal)| e.0@)
}

/// The first value stored under a key, if any.
pub open spec fn lookup_key(entries: Seq<(String, JsonVal)>, key: Seq<char>) -> Option<JsonVal>
    decreases entries.len(),
{
    if entries.len() == 0 {
        None
    } else if entries.first().0@ == key {
        Some(entries.first().1)
    } else {
        lookup_key(entries.drop_first(), key)
    }
}

pub open spec fn is_digit_char(c: char) -> bool {
    48 <= (c as u32) <= 57
}

pub open spec fn digit_val(c: char) -> nat {
    ((c as u32) - 48) as nat
}

/// A non-empty, all-decimal-digits key.
pub open spec fn all_digits(s: Seq<char>) -> bool {
    s.len() > 0 && forall|i: int| 0 <= i < s.len() ==> is_digit_char(#[trigger] s[i])
}

/// The number a decimal key denotes.
pub open spec fn decimal_val(s: Seq<char>) -> nat
    decreases s.len(),
{
    if s.len() == 0 {
        0
    } else {
        decimal_val(s.drop_last()) * 10 + digit_val(s.last())
    }
}

/// An answer record: an object whose every value is text, no key repeated.
pub open spec fn answers_ok(td: JsonVal) -> bool {
    &&& td is Object
    &&& forall|i: int|
        0 <= i < entries_of(td).len() ==> (#[trigger] entries_of(td)[i]).1 is Text
    &&& keys_of(entries_of(td)).no_duplicates()
}

/// One turn entry of a player's application data: a decimal turn key below
/// `MAX_TURNS` and within the identity's challenge sequence, carrying a
/// well-formed answer record.
pub open spec fn turn_entry_ok(idxs: Seq<u32>, key: Seq<char>, td: JsonVal) -> bool {
    &&& all_digits(key)
    &&& decimal_val(key) < MAX_TURNS
    &&& decimal_val(key) < idxs.len()
    &&& answers_ok(td)
}

/// The parsed turn index of each entry of a player's application data.
pub open spec fn parsed_turns(entries: Seq<(String, JsonVal)>) -> Seq<int> {
    entries.map_values(|e: (String, JsonVal)| decimal_val(e.0@) as int)
}

/// Whether answer entry `x` credits the turn: it is the "bot" claim and its
/// text is exactly the dictionary's bot phrase for the turn's challenge index.
pub open spec fn credits_at(
    dict: Dictionary,
    idxs: Seq<u32>,
    t: int,
    answers: Seq<(String, JsonVal)>,
    x: int,
) -> bool {
    &&& answers[x].0@ == "bot"@
    &&& answers[x].1 is Text
    &&& answers[x].1->Text_0@ == dict.bot_at(idxs[t] as int)
}

/// A turn entry earns its point exactly when some answer entry credits it.
pub open spec fn answer_credits(
    dict: Dictionary,
    idxs: Seq<u32>,
    key: Seq<char>,
    td: JsonVal,
) -> bool {
    exists|x: int|
        0 <= x < entries_of(td).len() && #[trigger] credits_at(
            dict,
            idxs,
            decimal_val(key) as int,
            entries_of(td),
            x,
        )
}

/// The score of a list of turn entries: one point per crediting entry.
pub open spec fn turns_score(
    dict: Dictionary,
    idxs: Seq<u32>,
    turn_entries: Seq<(String, JsonVal)>,
) -> nat
    decreases turn_entries.len(),
{
    if turn_entries.len() == 0 {
        0
    } else {
        turns_score(dict, idxs, turn_entries.drop_last()) + (
        if answer_credits(dict, idxs, turn_entries.last().0@, turn_entries.last().1) {
            1nat
        } else {
            0nat
        })
    }
}

/// One player entry of the document is acceptable: the identity has never
/// been settled, its data holds the application's turn map, every turn entry
/// is well-formed, and no turn is named twice.
pub open spec fn player_entry_ok(
    id: Seq<char>,
    v: JsonVal,
    ledger: Map<Seq<char>, usize>,
) -> bool {
    &&& !ledger.contains_key(id)
    &&& v is Object
    &&& lookup_key(entries_of(v), "HotOrBot"@) is Some
    &&& lookup_key(entries_of(v), "HotOrBot"@)->Some_0 is Object
    &&& {
        let tv = lookup_key(entries_of(v), "HotOrBot"@)->Some_0;
        &&& forall|i: int|
            0 <= i < entries_of(tv).len() ==> turn_entry_ok(
                challenge_seq_of(id),
                (#[trigger] entries_of(tv)[i]).0@,
                entries_of(tv)[i].1,
            )
        &&& parsed_turns(entries_of(tv)).no_duplicates()
    }
}

/// The player's turn entries, as the scoring reads them.
pub open spec fn player_turns(v: JsonVal) -> Seq<(String, JsonVal)> {
    entries_of(lookup_key(entries_of(v), "HotOrBot"@)->Some_0)
}

/// The score one player entry settles to.
pub open spec fn player_score(dict: Dictionary, id: Seq<char>, v: JsonVal) -> nat {
    turns_score(dict, challenge_seq_of(id), player_turns(v))
}

/// A fetched document is acceptable: an object, no identity named twice, and
/// every player entry acceptable against the ledger as it stood before the
/// continuation ran.
pub open spec fn doc_ok(doc: JsonVal, ledger: Map<Seq<char>, usize>) -> bool {
    &&& doc is Object
    &&& keys_of(entries_of(doc)).no_duplicates()
    &&& forall|i: int|
        0 <= i < entries_of(doc).len() ==> player_entry_ok(
            (#[trigger] entries_of(doc)[i]).0@,
            entries_of(doc)[i].1,
            ledger,
        )
}

/// The scores a document settles to, one ledger entry per player entry.
pub open spec fn scores_of_doc(
    dict: Dictionary,
    entries: Seq<(String, JsonVal)>,
) -> Map<Seq<char>, usize>
    decreases entries.len(),
{
    if entries.len() == 0 {
        Map::empty()
    } else {
        scores_of_doc(dict, entries.drop_last()).insert(
            entries.last().0@,
            player_score(dict, entries.last().0@, entries.last().1) as usize,
        )
    }
}

/// A score never exceeds the number of turn entries it was computed from.
pub proof fn lemma_turns_score_le_len(
    dict: Dictionary,
    idxs: Seq<u32>,
    turn_entries: Seq<(String, JsonVal)>,
)
    ensures
        turns_score(dict, idxs, turn_entries) <= turn_entries.len(),
    decreases turn_entries.len(),
{
    if turn_entries.len() > 0 {
        lemma_turns_score_le_len(dict, idxs, turn_entries.drop_last());
    }
}

/// An identity is in the settled-scores map exactly when some player entry
/// carries it.
pub proof fn lemma_scores_of_doc_domain(
    dict: Dictionary,
    entries: Seq<(String, JsonVal)>,
    id: Seq<char>,
)
    ensures
        scores_of_doc(dict, entries).contains_key(id) <==> exists|j: int|
            0 <= j < entries.len() && (#[trigger] entries[j]).0@ == id,
    decreases entries.len(),
{
    if entries.len() > 0 {
        lemma_scores_of_doc_domain(dict, entries.drop_last(), id);
        if entries.last().0@ == id {
            assert(entries[entries.len() - 1].0@ == id);
        } else if scores_of_doc(dict, entries).contains_key(id) {
            let j = choose|j: int|
                0 <= j < entries.drop_last().len() && (#[trigger] entries.drop_last()[j]).0@
                    == id;
            assert(entries[j].0@ == id);
        } else {
            assert forall|j: int| 0 <= j < entries.len() implies (#[trigger] entries[j]).0@
                != id by {
                if j < entries.len() - 1 {
                    assert(entries.drop_last()[j].0@ != id);
                }
            }
        }
    }
}

} // verus!
