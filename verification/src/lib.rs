//! Settlement core of a quiz-style game. Each player gets a personal,
//! deterministic sequence of challenges derived from their account id;
//! externally recorded answers are verified exactly once against that
//! sequence, a score is written to a ledger, and a perfect score gates a
//! collectible token plus a public badge, while an imperfect score refunds
//! the reward deposit.
use vstd::prelude::*;

pub mod derive;
pub mod dictionary;
pub mod digest;
pub mod json;
pub mod laws;
pub mod ledger;
pub mod settle;
pub mod social;

use crate::derive::challenge_index_of;
use crate::derive::challenge_seq_of;
use crate::derive::challenge_seq_of_hex;
use crate::derive::lemma_challenge_seq_distinct_bounded;
use crate::derive::vec_contains_u32;
use crate::dictionary::Dictionary;
use crate::digest::sha256_hex;
use crate::ledger::ScoreLedger;
use crate::json::JsonVal;
use crate::json::answer_credits;
use crate::json::answers_ok;
use crate::json::credits_at;
use crate::json::decimal_val;
use crate::json::doc_ok;
use crate::json::entries_of;
use crate::json::keys_of;
use crate::json::lemma_scores_of_doc_domain;
use crate::json::lookup_key;
use crate::json::parsed_turns;
use crate::json::player_entry_ok;
use crate::json::player_score;
use crate::json::player_turns;
use crate::json::turn_entry_ok;
use crate::json::turns_score;
use crate::json::scores_of_doc;
use crate::settle::SettleAction;
use crate::settle::TurnKey;
use crate::settle::lookup_entry;
use crate::settle::parse_turn_key;
use crate::settle::SettlementReceipt;
use crate::settle::actions_ok;
use crate::settle::lemma_actions_ok_push;
use crate::settle::player_actions_ok;
use crate::social::DEPOSIT_FOR_SOCIAL_SET;
use crate::social::GAS_FOR_AFTER_SOCIAL_GET;
use crate::social::GAS_FOR_SOCIAL_GET;
use crate::social::GAS_FOR_SOCIAL_SET;
use crate::social::PromiseFailure;
use crate::social::SocialGetRequest;
use crate::social::SocialSetRequest;
use crate::social::social_set_request_ok;
use vstd::string::StringExecFns;

verus! {

/// Number of turns a player must answer; a settlement is perfect when every
/// one of them is answered with the true bot phrase.
pub const MAX_TURNS: usize = 4;

/// Number of distinct (bot phrase, human phrase) pairs in the dictionary;
/// every challenge index is below this bound.
pub const DICTIONARY_VALUES: u32 = 10;

/// Everything that can go wrong synchronously, or that fails a settlement
/// continuation before any ledger write.
#[derive(Clone, Copy, Debug, PartialEq, Eq, Structural)]
pub enum GameError {
    /// A turn beyond the identity's challenge sequence was asked for.
    WrongTurn,
    /// A settlement was begun for an account other than the caller.
    IllegalReceiver,
    /// The identity already holds a ledger entry.
    AlreadyFinalized,
    /// The fetched document is not an object.
    NotAnObject,
    /// A player entry carries no data under the application key.
    MissingData,
    /// The application data of a player entry is not an object of turns.
    MissingTurns,
    /// A turn key is not a decimal number.
    BadTurnKey,
    /// A turn index at or above `MAX_TURNS`.
    IllegalTurnIndex,
    /// A turn index beyond the identity's challenge sequence.
    TurnNotInSequence,
    /// Two turn entries name the same turn.
    DuplicateTurn,
    /// A turn's answer record is not an object.
    MalformedTurnData,
    /// An answer record holds a non-text value.
    AnswerNotText,
    /// An answer record repeats a key.
    DuplicateAnswerKey,
    /// The document names the same identity twice.
    DuplicateIdentity,
}

/// The whole game state the core owns: the phrase dictionary it was built
/// with, the score ledger, and the account the contract itself runs as (the
/// badge publisher).
pub struct Contract {
    dictionary: Dictionary,
    players_score: ScoreLedger,
    current_account_id: String,
}

impl Contract {
    pub closed spec fn wf(&self) -> bool {
        &&& self.dictionary.wf()
        &&& self.players_score.wf()
    }

    /// The score ledger as a map from identity characters to the score.
    pub closed spec fn scores(&self) -> Map<Seq<char>, usize> {
        self.players_score.view_map()
    }

    /// The dictionary the contract was built with.
    pub closed spec fn dict(&self) -> Dictionary {
        self.dictionary
    }

    /// The account the contract itself runs as: the badge publisher.
    pub closed spec fn publisher(&self) -> Seq<char> {
        self.current_account_id@
    }

    pub fn new(dictionary: Dictionary, current_account_id: String) -> (c: Contract)
        requires
            dictionary.wf(),
        ensures
            c.wf(),
            c.scores() == Map::<Seq<char>, usize>::empty(),
            c.dict() == dictionary,
            c.publisher() == current_account_id@,
    {
        Contract { dictionary, players_score: ScoreLedger::new(), current_account_id }
    }

    /// The identity's challenge sequence: indices of the challenges it must
    /// answer, derived from the identity's digest alone, in first-appearance
    /// order, without repetition, each below the dictionary bound.
    pub fn get_turns(&self, account_id: &str) -> (r: Vec<u32>)
        ensures
            r@ == challenge_seq_of(account_id@),
            r@.no_duplicates(),
            forall|i: int| 0 <= i < r@.len() ==> r@[i] < DICTIONARY_VALUES,
    {
        let hex = sha256_hex(account_id);
        let mut result: Vec<u32> = Vec::new();
        let mut i: usize = 0;
        while i < hex.len()
            invariant
                i <= hex@.len(),
                hex@ == crate::digest::sha256_hex_of(account_id@),
                result@ == challenge_seq_of_hex(hex@.take(i as int)),
            decreases hex@.len() - i,
        {
            let c = hex[i];
            let v = (c as u32) % DICTIONARY_VALUES;
            let seen = vec_contains_u32(&result, v);
            if !seen {
                result.push(v);
            }
            proof {
                assert(hex@.take(i + 1 as int).drop_last() =~= hex@.take(i as int));
                assert(hex@.take(i + 1 as int).last() == hex@[i as int]);
                assert(v == challenge_index_of(hex@[i as int]));
            }
            i += 1;
        }
        proof {
            assert(hex@.take(hex@.len() as int) =~= hex@);
            lemma_challenge_seq_distinct_bounded(hex@);
        }
        result
    }

    /// One challenge for a turn: a pair of phrases whose slot order is chosen
    /// by the fresh random bit, the bot phrase in slot `random_bit`, its human
    /// counterpart in the other slot. Read-only: the ledger never changes on
    /// the query path.
    pub fn get_turn(&self, account_id: &str, turn: usize, random_bit: usize) -> (r: Result<
        Vec<String>,
        GameError,
    >)
        requires
            self.wf(),
            random_bit < 2,
        ensures
            match r {
                Ok(pair) => {
                    &&& turn < challenge_seq_of(account_id@).len()
                    &&& pair@.len() == 2
                    &&& pair@[random_bit as int]@ == self.dict().bot_at(
                        challenge_seq_of(account_id@)[turn as int] as int,
                    )
                    &&& pair@[1 - random_bit as int]@ == self.dict().hot_at(
                        challenge_seq_of(account_id@)[turn as int] as int,
                    )
                },
                Err(e) => e == GameError::WrongTurn && turn >= challenge_seq_of(
                    account_id@,
                ).len(),
            },
    {
        let turns = self.get_turns(account_id);
        if turn >= turns.len() {
            return Err(GameError::WrongTurn);
        }
        let item = turns[turn];
        let bot = self.dictionary.get_bot(item).clone();
        let hot = self.dictionary.get_hot(item).clone();
        let pair = if random_bit == 0 {
            vec![bot, hot]
        } else {
            vec![hot, bot]
        };
        Ok(pair)
    }

    pub fn get_score(&self, account_id: String) -> (r: Option<usize>)
        requires
            self.wf(),
        ensures
            match r {
                Some(s) => self.scores().contains_key(account_id@) && self.scores()[account_id@]
                    == s,
                None => !self.scores().contains_key(account_id@),
            },
    {
        self.players_score.get(&account_id)
    }
}

/// The randomized-presentation helper: one fresh unpredictable bit, drawn
/// from the platform's random seed, decides which slot holds the bot phrase.
pub fn get_binary_random(random_seed: &Vec<u8>) -> (r: usize)
    requires
        random_seed@.len() >= 1,
    ensures
        r == random_seed@[0] % 2,
        r < 2,
{
    (random_seed[0] % 2) as usize
}

impl Contract {
    /// Checks one player entry of the fetched document against the ledger
    /// and the recomputed challenge sequence, and scores it: one point per
    /// turn whose "bot" claim is exactly the dictionary's bot phrase for the
    /// turn's challenge index.
    #[verifier::loop_isolation(false)]
    pub fn check_player(&self, account_id: &String, v: &JsonVal) -> (r: Result<usize, GameError>)
        requires
            self.wf(),
        ensures
            r is Ok <==> player_entry_ok(account_id@, *v, self.scores()),
            r matches Ok(s) ==> s == player_score(self.dict(), account_id@, *v),
    {
        if self.players_score.contains(account_id) {
            return Err(GameError::AlreadyFinalized);
        }
        let entries = match v {
            JsonVal::Object(entries) => entries,
            _ => {
                return Err(GameError::MissingData);
            },
        };
        let app_key = "HotOrBot".to_owned();
        let tv = match lookup_entry(entries, &app_key) {
            Some(tv) => tv,
            None => {
                return Err(GameError::MissingData);
            },
        };
        let turn_entries = match tv {
            JsonVal::Object(te) => te,
            _ => {
                return Err(GameError::MissingTurns);
            },
        };
        proof {
            assert(entries_of(*v) == entries@);
            assert(lookup_key(entries_of(*v), "HotOrBot"@) == Some(*tv));
            assert(entries_of(lookup_key(entries_of(*v), "HotOrBot"@)->Some_0)
                == turn_entries@);
        }
        let turns = self.get_turns(account_id.as_str());
        let mut seen: Vec<bool> = Vec::new();
        while seen.len() < MAX_TURNS
            invariant
                seen@.len() <= MAX_TURNS,
                forall|t: int| 0 <= t < seen@.len() ==> !(#[trigger] seen@[t]),
            decreases MAX_TURNS - seen@.len(),
        {
            seen.push(false);
        }
        let bot_key = "bot".to_owned();
        let mut score: usize = 0;
        let mut ti: usize = 0;
        while ti < turn_entries.len()
            invariant
                self.wf(),
                ti <= turn_entries@.len(),
                seen@.len() == MAX_TURNS,
                turns@ == crate::derive::challenge_seq_of(account_id@),
                bot_key@ == "bot"@,
                forall|j: int|
                    0 <= j < ti ==> turn_entry_ok(
                        turns@,
                        (#[trigger] turn_entries@[j]).0@,
                        turn_entries@[j].1,
                    ),
                forall|t: int|
                    0 <= t < MAX_TURNS ==> ((#[trigger] seen@[t]) <==> exists|j: int|
                        0 <= j < ti && decimal_val((#[trigger] turn_entries@[j]).0@) == t),
                parsed_turns(turn_entries@.take(ti as int)).no_duplicates(),
                score == turns_score(self.dict(), turns@, turn_entries@.take(ti as int)),
                score <= ti,
            decreases turn_entries@.len() - ti,
        {
            let key = &turn_entries[ti].0;
            let td = &turn_entries[ti].1;
            let t = match parse_turn_key(key) {
                TurnKey::NotNumeric => {
                    proof {
                        assert(!turn_entry_ok(
                            turns@,
                            turn_entries@[ti as int].0@,
                            turn_entries@[ti as int].1,
                        ));
                    }
                    return Err(GameError::BadTurnKey);
                },
                TurnKey::OutOfRange => {
                    proof {
                        assert(!turn_entry_ok(
                            turns@,
                            turn_entries@[ti as int].0@,
                            turn_entries@[ti as int].1,
                        ));
                    }
                    return Err(GameError::IllegalTurnIndex);
                },
                TurnKey::Turn(t) => t,
            };
            if t >= turns.len() {
                proof {
                    assert(!turn_entry_ok(
                        turns@,
                        turn_entries@[ti as int].0@,
                        turn_entries@[ti as int].1,
                    ));
                }
                return Err(GameError::TurnNotInSequence);
            }
            if seen[t] {
                proof {
                    let j = choose|j: int|
                        0 <= j < ti && decimal_val((#[trigger] turn_entries@[j]).0@) == t;
                    assert(parsed_turns(turn_entries@)[j] == decimal_val(
                        turn_entries@[j].0@,
                    ) as int);
                    assert(parsed_turns(turn_entries@)[ti as int] == decimal_val(
                        turn_entries@[ti as int].0@,
                    ) as int);
                    assert(!parsed_turns(turn_entries@).no_duplicates());
                }
                return Err(GameError::DuplicateTurn);
            }
            seen.set(t, true);
            let answers = match td {
                JsonVal::Object(a) => a,
                _ => {
                    proof {
                        assert(!answers_ok(turn_entries@[ti as int].1));
                        assert(!turn_entry_ok(
                            turns@,
                            turn_entries@[ti as int].0@,
                            turn_entries@[ti as int].1,
                        ));
                    }
                    return Err(GameError::MalformedTurnData);
                },
            };
            let mut credited = false;
            let mut ai: usize = 0;
            while ai < answers.len()
                invariant
                    self.wf(),
                    ai <= answers@.len(),
                    bot_key@ == "bot"@,
                    turns@ == crate::derive::challenge_seq_of(account_id@),
                    0 <= t < turns@.len(),
                    t < MAX_TURNS,
                    decimal_val(turn_entries@[ti as int].0@) == t,
                    ti < turn_entries@.len(),
                    answers@ == entries_of(turn_entries@[ti as int].1),
                    forall|j: int| 0 <= j < ai ==> (#[trigger] answers@[j]).1 is Text,
                    keys_of(answers@.take(ai as int)).no_duplicates(),
                    credited <==> exists|x: int|
                        0 <= x < ai && #[trigger] credits_at(
                            self.dict(),
                            turns@,
                            t as int,
                            answers@,
                            x,
                        ),
                decreases answers@.len() - ai,
            {
                let av = match &answers[ai].1 {
                    JsonVal::Text(s) => s,
                    _ => {
                        proof {
                            assert(!answers_ok(turn_entries@[ti as int].1));
                            assert(!turn_entry_ok(
                                turns@,
                                turn_entries@[ti as int].0@,
                                turn_entries@[ti as int].1,
                            ));
                        }
                        return Err(GameError::AnswerNotText);
                    },
                };
                let mut bi: usize = 0;
                while bi < ai
                    invariant
                        bi <= ai,
                        ai < answers@.len(),
                        forall|j: int| 0 <= j < bi ==> (#[trigger] answers@[j]).0@ != answers@[
                            ai as int
                        ].0@,
                    decreases ai - bi,
                {
                    if answers[bi].0 == answers[ai].0 {
                        proof {
                            assert(keys_of(answers@)[bi as int] == answers@[bi as int].0@);
                            assert(keys_of(answers@)[ai as int] == answers@[ai as int].0@);
                            assert(!keys_of(answers@).no_duplicates());
                            assert(!answers_ok(turn_entries@[ti as int].1));
                            assert(!turn_entry_ok(
                                turns@,
                                turn_entries@[ti as int].0@,
                                turn_entries@[ti as int].1,
                            ));
                        }
                        return Err(GameError::DuplicateAnswerKey);
                    }
                    bi += 1;
                }
                let is_bot = answers[ai].0 == bot_key;
                let mut hit = false;
                if is_bot {
                    let phrase = self.dictionary.get_bot(turns[t]);
                    if *av == *phrase {
                        hit = true;
                    }
                    proof {
                        assert(answers@[ai as int].1 is Text);
                        assert(answers@[ai as int].1->Text_0@ == av@);
                        assert(answers@[ai as int].0@ == "bot"@);
                        assert(phrase@ == self.dict().bot_at(turns@[t as int] as int));
                        if hit {
                            assert(credits_at(self.dict(), turns@, t as int, answers@, ai as int));
                        } else {
                            assert(!credits_at(
                                self.dict(),
                                turns@,
                                t as int,
                                answers@,
                                ai as int,
                            ));
                        }
                    }
                } else {
                    proof {
                        assert(answers@[ai as int].0@ != "bot"@);
                        assert(!credits_at(self.dict(), turns@, t as int, answers@, ai as int));
                    }
                }
                if hit {
                    credited = true;
                }
                proof {
                    assert(keys_of(answers@.take(ai + 1 as int)) =~= keys_of(
                        answers@.take(ai as int),
                    ).push(answers@[ai as int].0@));
                    assert forall|x: int|
                        0 <= x < ai + 1 && #[trigger] credits_at(
                            self.dict(),
                            turns@,
                            t as int,
                            answers@,
                            x,
                        ) implies (credited || hit || x < ai) by {}
                }
                ai += 1;
            }
            proof {
                assert(answers@.take(answers@.len() as int) =~= answers@);
                assert(keys_of(answers@) =~= keys_of(answers@.take(answers@.len() as int)));
                assert(answers_ok(turn_entries@[ti as int].1));
                assert(turn_entry_ok(turns@, turn_entries@[ti as int].0@, turn_entries@[
                    ti as int
                ].1));
                assert(credited == answer_credits(
                    self.dict(),
                    turns@,
                    turn_entries@[ti as int].0@,
                    turn_entries@[ti as int].1,
                ));
                assert(turn_entries@.take(ti + 1 as int).drop_last() =~= turn_entries@.take(
                    ti as int,
                ));
                assert(turn_entries@.take(ti + 1 as int).last() == turn_entries@[ti as int]);
                assert(parsed_turns(turn_entries@.take(ti + 1 as int)) =~= parsed_turns(
                    turn_entries@.take(ti as int),
                ).push(decimal_val(turn_entries@[ti as int].0@) as int));
                assert forall|j: int|
                    0 <= j < ti implies parsed_turns(turn_entries@.take(ti as int))[j]
                    != decimal_val(turn_entries@[ti as int].0@) as int by {
                    assert(parsed_turns(turn_entries@.take(ti as int))[j] == decimal_val(
                        turn_entries@[j].0@,
                    ) as int);
                }
            }
            if credited {
                score += 1;
            }
            ti += 1;
        }
        proof {
            assert(turn_entries@.take(turn_entries@.len() as int) =~= turn_entries@);
            assert(parsed_turns(turn_entries@.take(turn_entries@.len() as int)) =~= parsed_turns(
                turn_entries@,
            ));
            assert(player_turns(*v) == turn_entries@);
            assert(player_entry_ok(account_id@, *v, self.scores()));
        }
        Ok(score)
    }

    /// Checks the whole fetched document: rejects anything but an object of
    /// player entries with distinct identities, each acceptable, and returns
    /// each identity with the score it settles to.
    #[verifier::loop_isolation(false)]
    pub fn check_document(&self, doc: &JsonVal) -> (r: Result<Vec<(String, usize)>, GameError>)
        requires
            self.wf(),
        ensures
            r is Ok <==> doc_ok(*doc, self.scores()),
            r matches Ok(list) ==> {
                &&& list@.len() == entries_of(*doc).len()
                &&& forall|i: int|
                    0 <= i < list@.len() ==> (#[trigger] list@[i]).0@ == entries_of(*doc)[i].0@
                        && list@[i].1 == player_score(
                        self.dict(),
                        entries_of(*doc)[i].0@,
                        entries_of(*doc)[i].1,
                    )
            },
    {
        let entries = match doc {
            JsonVal::Object(e) => e,
            _ => {
                return Err(GameError::NotAnObject);
            },
        };
        let mut out: Vec<(String, usize)> = Vec::new();
        let mut pi: usize = 0;
        while pi < entries.len()
            invariant
                self.wf(),
                out@.len() == pi,
                pi <= entries@.len(),
                entries@ == entries_of(*doc),
                forall|i: int|
                    0 <= i < pi ==> player_entry_ok(
                        (#[trigger] entries@[i]).0@,
                        entries@[i].1,
                        self.scores(),
                    ),
                keys_of(entries@.take(pi as int)).no_duplicates(),
                forall|i: int|
                    0 <= i < pi ==> (#[trigger] out@[i]).0@ == entries@[i].0@ && out@[i].1
                        == player_score(self.dict(), entries@[i].0@, entries@[i].1),
            decreases entries@.len() - pi,
        {
            let mut bi: usize = 0;
            while bi < pi
                invariant
                    bi <= pi,
                    pi < entries@.len(),
                    forall|j: int| 0 <= j < bi ==> (#[trigger] entries@[j].0@) != entries@[
                        pi as int
                    ].0@,
                decreases pi - bi,
            {
                if entries[bi].0 == entries[pi].0 {
                    proof {
                        assert(keys_of(entries@)[bi as int] == entries@[bi as int].0@);
                        assert(keys_of(entries@)[pi as int] == entries@[pi as int].0@);
                        assert(!keys_of(entries@).no_duplicates());
                    }
                    return Err(GameError::DuplicateIdentity);
                }
                bi += 1;
            }
            let s = match self.check_player(&entries[pi].0, &entries[pi].1) {
                Ok(s) => s,
                Err(e) => {
                    return Err(e);
                },
            };
            out.push((entries[pi].0.clone(), s));
            proof {
                assert(keys_of(entries@.take(pi + 1 as int)) =~= keys_of(
                    entries@.take(pi as int),
                ).push(entries@[pi as int].0@));
                assert forall|j: int|
                    0 <= j < pi implies keys_of(entries@.take(pi as int))[j] != entries@[
                    pi as int
                ].0@ by {
                    assert(keys_of(entries@.take(pi as int))[j] == entries@[j].0@);
                }
            }
            pi += 1;
        }
        proof {
            assert(entries@.take(entries@.len() as int) =~= entries@);
            assert(keys_of(entries@) =~= keys_of(entries@.take(entries@.len() as int)));
        }
        Ok(out)
    }

    /// Begins a settlement: only the receiver may settle itself, and only
    /// once; this is the single idempotency gate, checked before any
    /// asynchronous step. On success the read request for the receiver's
    /// recorded answers is handed back, budgeted and addressed, carrying the
    /// caller's attached value forward unmodified.
    pub fn nft_mint(&self, predecessor_account_id: String, receiver_id: String) -> (r: Result<
        SocialGetRequest,
        GameError,
    >)
        requires
            self.wf(),
        ensures
            r is Ok <==> (predecessor_account_id@ == receiver_id@ && !self.scores().contains_key(
                receiver_id@,
            )),
            r matches Ok(req) ==> {
                &&& req.target@ == "social.near"@
                &&& req.keys@.len() == 1
                &&& req.keys@[0]@ == receiver_id@ + "/HotOrBot/**"@
                &&& req.options is None
                &&& req.gas == GAS_FOR_SOCIAL_GET
                &&& req.callback_gas == GAS_FOR_AFTER_SOCIAL_GET
            },
            r matches Err(e) ==> ((e == GameError::IllegalReceiver <==> predecessor_account_id@
                != receiver_id@) && (e == GameError::AlreadyFinalized <==> (
            predecessor_account_id@ == receiver_id@ && self.scores().contains_key(receiver_id@)))),
    {
        if !(predecessor_account_id == receiver_id) {
            return Err(GameError::IllegalReceiver);
        }
        if self.players_score.contains(&receiver_id) {
            return Err(GameError::AlreadyFinalized);
        }
        let mut key = receiver_id;
        key.append("/HotOrBot/**");
        Ok(SocialGetRequest {
            target: "social.near".to_owned(),
            keys: vec![key],
            options: None,
            gas: GAS_FOR_SOCIAL_GET,
            callback_gas: GAS_FOR_AFTER_SOCIAL_GET,
        })
    }

    /// Builds the badge write that marks an identity as the badge's holder
    /// under the publisher's own key; fire-and-forget, with the fixed
    /// deposit and budget.
    pub fn internal_social_set(&self, badge: String, account_id: String) -> (r: SocialSetRequest)
        ensures
            social_set_request_ok(r, self.publisher(), badge@, account_id@),
    {
        let account_data = JsonVal::Object(vec![(account_id, JsonVal::Text(String::new()))]);
        let holder_data = JsonVal::Object(vec![("holder".to_owned(), account_data)]);
        let badge_data = JsonVal::Object(vec![(badge, holder_data)]);
        let app_data = JsonVal::Object(vec![("badge".to_owned(), badge_data)]);
        let data = JsonVal::Object(vec![(self.current_account_id.clone(), app_data)]);
        SocialSetRequest {
            target: "social.near".to_owned(),
            data,
            deposit: DEPOSIT_FOR_SOCIAL_SET,
            gas: GAS_FOR_SOCIAL_SET,
        }
    }

    /// The restricted administrative operation: publish the winner badge for
    /// an identity directly, bypassing scoring and the ledger's settlement
    /// guarantees; operator-only, never reachable by ordinary players.
    pub fn set_winner(&self, account_id: String) -> (r: SocialSetRequest)
        ensures
            social_set_request_ok(r, self.publisher(), "winner"@, account_id@),
    {
        self.internal_social_set("winner".to_owned(), account_id)
    }

    /// The settlement continuation: runs exactly once per begun settlement,
    /// with the fetch's outcome. A failed fetch settles nothing and reports
    /// score 0. A document is checked whole before any write: if acceptable,
    /// every player entry's score is recorded exactly once, a perfect score
    /// owes a mint then a badge publish, any other score owes one refund of
    /// the attached value; if not, the whole continuation fails with no
    /// ledger write at all.
    #[verifier::loop_isolation(false)]
    pub fn after_social_get(
        &mut self,
        value: Result<JsonVal, PromiseFailure>,
        attached_deposit: u128,
    ) -> (r: Result<SettlementReceipt, GameError>)
        requires
            old(self).wf(),
        ensures
            final(self).wf(),
            final(self).dict() == old(self).dict(),
            final(self).publisher() == old(self).publisher(),
            match value {
                Result::Err(_) => r is Ok && final(self).scores() == old(self).scores()
                    && r->Ok_0.score == 0 && r->Ok_0.actions@.len() == 0,
                Result::Ok(doc) => {
                    &&& (r is Ok <==> doc_ok(doc, old(self).scores()))
                    &&& (r is Err ==> final(self).scores() == old(self).scores())
                    &&& (r matches Ok(rec) ==> {
                        &&& final(self).scores() == old(self).scores().union_prefer_right(
                            scores_of_doc(old(self).dict(), entries_of(doc)),
                        )
                        &&& actions_ok(
                            rec.actions@,
                            old(self).dict(),
                            old(self).publisher(),
                            entries_of(doc),
                            attached_deposit,
                        )
                        &&& rec.score as nat == (if entries_of(doc).len() == 0 {
                            0nat
                        } else {
                            player_score(
                                old(self).dict(),
                                entries_of(doc).last().0@,
                                entries_of(doc).last().1,
                            )
                        })
                    })
                },
            },
    {
        let doc = match value {
            Ok(d) => d,
            Err(_) => {
                return Ok(SettlementReceipt { score: 0, actions: Vec::new() });
            },
        };
        let list = match self.check_document(&doc) {
            Ok(l) => l,
            Err(e) => {
                return Err(e);
            },
        };
        let entries = match doc {
            JsonVal::Object(e) => e,
            _ => {
                proof {
                    assert(false);
                }
                return Err(GameError::NotAnObject);
            },
        };
        let ghost dict = self.dict();
        let ghost publisher = self.publisher();
        let ghost old_scores = self.scores();
        let mut actions: Vec<SettleAction> = Vec::new();
        let mut last_score: usize = 0;
        let mut i: usize = 0;
        while i < list.len()
            invariant
                self.wf(),
                self.dict() == dict,
                self.publisher() == publisher,
                list@.len() == entries@.len(),
                i <= list@.len(),
                keys_of(entries@).no_duplicates(),
                forall|j: int|
                    0 <= j < entries@.len() ==> player_entry_ok(
                        (#[trigger] entries@[j]).0@,
                        entries@[j].1,
                        old_scores,
                    ),
                forall|j: int|
                    0 <= j < list@.len() ==> (#[trigger] list@[j]).0@ == entries@[j].0@
                        && list@[j].1 == player_score(dict, entries@[j].0@, entries@[j].1),
                self.scores() == old_scores.union_prefer_right(
                    scores_of_doc(dict, entries@.take(i as int)),
                ),
                actions_ok(actions@, dict, publisher, entries@.take(i as int), attached_deposit),
                last_score == if i == 0 {
                    0usize
                } else {
                    list@[i - 1].1
                },
            decreases list@.len() - i,
        {
            let id = entries[i].0.clone();
            let score = list[i].1;
            proof {
                lemma_scores_of_doc_domain(dict, entries@.take(i as int), id@);
                assert forall|j: int|
                    0 <= j < i implies (#[trigger] entries@.take(i as int)[j]).0@ != id@ by {
                    assert(keys_of(entries@)[j] == entries@[j].0@);
                    assert(keys_of(entries@)[i as int] == entries@[i as int].0@);
                }
                assert(!scores_of_doc(dict, entries@.take(i as int)).contains_key(id@));
                assert(player_entry_ok(entries@[i as int].0@, entries@[i as int].1, old_scores));
                assert(!old_scores.contains_key(id@));
                assert(!self.scores().contains_key(id@));
            }
            self.players_score.record(id, score);
            proof {
                assert(entries@.take(i + 1 as int).drop_last() =~= entries@.take(i as int));
                assert(entries@.take(i + 1 as int).last() == entries@[i as int]);
                assert(self.scores() =~= old_scores.union_prefer_right(
                    scores_of_doc(dict, entries@.take(i + 1 as int)),
                ));
            }
            let ghost prev_actions = actions@;
            if score == MAX_TURNS {
                actions.push(SettleAction::MintNft { receiver: entries[i].0.clone() });
                let badge_req = self.internal_social_set(
                    "winner".to_owned(),
                    entries[i].0.clone(),
                );
                actions.push(SettleAction::PublishBadge { request: badge_req });
            } else {
                actions.push(
                    SettleAction::Refund {
                        receiver: entries[i].0.clone(),
                        amount: attached_deposit,
                    },
                );
            }
            proof {
                let more = actions@.skip(prev_actions.len() as int);
                assert(actions@.take(prev_actions.len() as int) =~= prev_actions);
                assert(actions@ =~= prev_actions + more);
                assert(player_actions_ok(
                    more,
                    dict,
                    publisher,
                    entries@[i as int].0@,
                    entries@[i as int].1,
                    attached_deposit,
                ));
                lemma_actions_ok_push(
                    prev_actions,
                    more,
                    dict,
                    publisher,
                    entries@.take(i as int),
                    entries@[i as int],
                    attached_deposit,
                );
                assert(entries@.take(i as int).push(entries@[i as int]) =~= entries@.take(
                    i + 1 as int,
                ));
            }
            last_score = score;
            i += 1;
        }
        proof {
            assert(entries@.take(entries@.len() as int) =~= entries@);
        }
        Ok(SettlementReceipt { score: last_score, actions })
    }
}

} // verus!
