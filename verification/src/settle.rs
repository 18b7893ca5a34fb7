//! The settlement state machine: begin (precondition check and fetch
//! request), verify-and-score the fetched document, finalize (write the
//! ledger exactly once per identity, then mint and publish for a perfect
//! score or refund the deposit otherwise).
use vstd::prelude::*;
use crate::MAX_TURNS;
use crate::json::JsonVal;
use crate::json::all_digits;
use crate::json::decimal_val;
use crate::json::is_digit_char;
use crate::json::lookup_key;
use crate::json::player_score;
use crate::dictionary::Dictionary;
use crate::social::SocialSetRequest;
use crate::social::social_set_request_ok;

verus! {

/// What a turn key parses to.
#[derive(Clone, Copy, Debug, PartialEq, Eq, Structural)]
pub enum TurnKey {
    /// Not a non-empty string of decimal digits.
    NotNumeric,
    /// A number at or above `MAX_TURNS`.
    OutOfRange,
    /// A valid turn index.
    Turn(usize),
}

/// Parses a turn key: a non-empty decimal string denoting a turn below
/// `MAX_TURNS`; anything larger is out of range, anything else not numeric.
#[verifier::loop_isolation(false)]
pub fn parse_turn_key(s: &String) -> (r: TurnKey)
    ensures
        r is NotNumeric <==> !all_digits(s@),
        r is OutOfRange <==> (all_digits(s@) && decimal_val(s@) >= MAX_TURNS),
        r is Turn <==> (all_digits(s@) && decimal_val(s@) < MAX_TURNS),
        r matches TurnKey::Turn(t) ==> decimal_val(s@) == t,
{
    let n = s.as_str().unicode_len();
    if n == 0 {
        return TurnKey::NotNumeric;
    }
    let mut i: usize = 0;
    let mut val: usize = 0;
    while i < n
        invariant
            n == s@.len(),
            0 < n,
            i <= n,
            forall|j: int| 0 <= j < i ==> is_digit_char(#[trigger] s@[j]),
            decimal_val(s@.take(i as int)) < MAX_TURNS ==> val == decimal_val(s@.take(i as int)),
            decimal_val(s@.take(i as int)) >= MAX_TURNS ==> val == MAX_TURNS,
            val <= MAX_TURNS,
        decreases n - i,
    {
        let c = s.as_str().get_char(i);
        let code = c as u32;
        if code < 48 || code > 57 {
            return TurnKey::NotNumeric;
        }
        let d = (code - 48) as usize;
        proof {
            assert(s@.take(i + 1 as int).drop_last() =~= s@.take(i as int));
            assert(s@.take(i + 1 as int).last() == s@[i as int]);
        }
        if val >= MAX_TURNS {
            val = MAX_TURNS;
        } else {
            val = val * 10 + d;
            if val > MAX_TURNS {
                val = MAX_TURNS;
            }
        }
        i += 1;
    }
    proof {
        assert(s@.take(n as int) =~= s@);
    }
    if val < MAX_TURNS {
        TurnKey::Turn(val)
    } else {
        TurnKey::OutOfRange
    }
}

/// The first entry stored under a key, as `lookup_key` reads it.
#[verifier::loop_isolation(false)]
pub(crate) fn lookup_entry<'a>(entries: &'a Vec<(String, JsonVal)>, key: &String) -> (r: Option<
    &'a JsonVal,
>)
    ensures
        match r {
            Some(v) => lookup_key(entries@, key@) == Some(*v),
            None => lookup_key(entries@, key@) is None,
        },
{
    let mut i: usize = 0;
    proof {
        assert(entries@.skip(0) =~= entries@);
    }
    while i < entries.len()
        invariant
            i <= entries@.len(),
            lookup_key(entries@, key@) == lookup_key(entries@.skip(i as int), key@),
        decreases entries@.len() - i,
    {
        proof {
            assert(entries@.skip(i as int).first() == entries@[i as int]);
            assert(entries@.skip(i as int).drop_first() =~= entries@.skip(i + 1 as int));
        }
        if entries[i].0 == *key {
            return Some(&entries[i].1);
        }
        i += 1;
    }
    proof {
        assert(entries@.skip(entries@.len() as int) =~= Seq::<(String, JsonVal)>::empty());
    }
    None
}

/// What the settlement continuation asks the platform to do after the
/// ledger write: mint the collectible, publish the badge, or return the
/// attached deposit.
pub enum SettleAction {
    MintNft { receiver: String },
    PublishBadge { request: SocialSetRequest },
    Refund { receiver: String, amount: u128 },
}

/// The externally observable result of a settlement continuation: the final
/// score and the outward actions, in order.
pub struct SettlementReceipt {
    pub score: usize,
    pub actions: Vec<SettleAction>,
}

/// The actions owed for one player entry: mint then badge on a perfect
/// score, one refund of the attached deposit otherwise.
pub open spec fn player_actions_ok(
    acts: Seq<SettleAction>,
    dict: Dictionary,
    publisher: Seq<char>,
    id: Seq<char>,
    v: JsonVal,
    deposit: u128,
) -> bool {
    if player_score(dict, id, v) == MAX_TURNS {
        &&& acts.len() == 2
        &&& acts[0] is MintNft && acts[0]->MintNft_receiver@ == id
        &&& acts[1] is PublishBadge && social_set_request_ok(
            acts[1]->PublishBadge_request,
            publisher,
            "winner"@,
            id,
        )
    } else {
        &&& acts.len() == 1
        &&& acts[0] is Refund && acts[0]->Refund_receiver@ == id && acts[0]->Refund_amount
            == deposit
    }
}

/// How many actions one player entry owes.
pub open spec fn player_actions_len(dict: Dictionary, id: Seq<char>, v: JsonVal) -> int {
    if player_score(dict, id, v) == MAX_TURNS {
        2
    } else {
        1
    }
}

/// The whole action list is the concatenation of each player entry's owed
/// actions, in document order.
pub open spec fn actions_ok(
    acts: Seq<SettleAction>,
    dict: Dictionary,
    publisher: Seq<char>,
    entries: Seq<(String, JsonVal)>,
    deposit: u128,
) -> bool
    decreases entries.len(),
{
    if entries.len() == 0 {
        acts.len() == 0
    } else {
        let k = player_actions_len(dict, entries.first().0@, entries.first().1);
        &&& acts.len() >= k
        &&& player_actions_ok(
            acts.take(k),
            dict,
            publisher,
            entries.first().0@,
            entries.first().1,
            deposit,
        )
        &&& actions_ok(acts.skip(k), dict, publisher, entries.drop_first(), deposit)
    }
}

/// Appending one player entry's owed actions keeps the action list correct.
pub proof fn lemma_actions_ok_push(
    acts: Seq<SettleAction>,
    more: Seq<SettleAction>,
    dict: Dictionary,
    publisher: Seq<char>,
    entries: Seq<(String, JsonVal)>,
    e: (String, JsonVal),
    deposit: u128,
)
    requires
        actions_ok(acts, dict, publisher, entries, deposit),
        player_actions_ok(more, dict, publisher, e.0@, e.1, deposit),
    ensures
        actions_ok(acts + more, dict, publisher, entries.push(e), deposit),
    decreases entries.len(),
{
    if entries.len() == 0 {
        assert(acts.len() == 0);
        assert(acts + more =~= more);
        let k = player_actions_len(dict, e.0@, e.1);
        assert(entries.push(e).first() == e);
        assert(more.len() == k);
        assert((acts + more).take(k) =~= more);
        assert(entries.push(e).drop_first() =~= Seq::<(String, JsonVal)>::empty());
        assert((acts + more).skip(k) =~= Seq::<SettleAction>::empty());
        assert(player_actions_ok(
            (acts + more).take(k),
            dict,
            publisher,
            entries.push(e).first().0@,
            entries.push(e).first().1,
            deposit,
        ));
        assert(actions_ok(
            (acts + more).skip(k),
            dict,
            publisher,
            entries.push(e).drop_first(),
            deposit,
        ));
    } else {
        let k = player_actions_len(dict, entries.first().0@, entries.first().1);
        lemma_actions_ok_push(
            acts.skip(k),
            more,
            dict,
            publisher,
            entries.drop_first(),
            e,
            deposit,
        );
        assert(entries.push(e).first() == entries.first());
        assert(entries.push(e).drop_first() =~= entries.drop_first().push(e));
        assert((acts + more).take(k) =~= acts.take(k));
        assert((acts + more).skip(k) =~= acts.skip(k) + more);
        assert(player_actions_ok(
            (acts + more).take(k),
            dict,
            publisher,
            entries.push(e).first().0@,
            entries.push(e).first().1,
            deposit,
        ));
        assert(actions_ok(
            (acts + more).skip(k),
            dict,
            publisher,
            entries.push(e).drop_first(),
            deposit,
        ));
    }
}

} // verus!
