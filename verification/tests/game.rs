use hot_or_bot::Contract;
use hot_or_bot::GameError;
use hot_or_bot::MAX_TURNS;
use hot_or_bot::DICTIONARY_VALUES;
use hot_or_bot::get_binary_random;
use hot_or_bot::dictionary::Dictionary;
use hot_or_bot::json::JsonVal;
use hot_or_bot::settle::SettleAction;
use hot_or_bot::settle::TurnKey;
use hot_or_bot::settle::parse_turn_key;
use hot_or_bot::social::PromiseFailure;
use hot_or_bot::social::SocialSetRequest;
use hot_or_bot::social::DEPOSIT_FOR_SOCIAL_SET;
use hot_or_bot::social::GAS_FOR_SOCIAL_SET;
use hot_or_bot::social::GAS_FOR_SOCIAL_GET;
use hot_or_bot::social::GAS_FOR_AFTER_SOCIAL_GET;

fn bot_phrase(i: u32) -> String {
    format!("machine sentence number {}", i)
}

fn hot_phrase(i: u32) -> String {
    format!("human sentence number {}", i)
}

fn dictionary() -> Dictionary {
    let bot: Vec<String> = (0..DICTIONARY_VALUES).map(bot_phrase).collect();
    let hot: Vec<String> = (0..DICTIONARY_VALUES).map(hot_phrase).collect();
    Dictionary::new(bot, hot)
}

fn contract() -> Contract {
    Contract::new(dictionary(), "game.near".to_string())
}

fn obj(entries: Vec<(&str, JsonVal)>) -> JsonVal {
    JsonVal::Object(entries.into_iter().map(|(k, v)| (k.to_string(), v)).collect())
}

fn text(s: &str) -> JsonVal {
    JsonVal::Text(s.to_string())
}

// sha256("alice.near") = 2dd5dda540767b3a1aa33544bcba38042f4df6de9bddb46798b29481c842c558,
// each hex symbol's code point mod 10, first appearances kept in order.
const ALICE_SEQ: [u32; 10] = [0, 3, 7, 2, 8, 5, 4, 1, 9, 6];

/// A document claiming, for each of alice's turns, the given phrase.
fn alice_doc(claims: Vec<(&str, String)>) -> JsonVal {
    let turns: Vec<(&str, JsonVal)> = claims
        .into_iter()
        .map(|(turn, phrase)| (turn, obj(vec![("bot", JsonVal::Text(phrase))])))
        .collect();
    obj(vec![("alice.near", obj(vec![("HotOrBot", obj(turns))]))])
}

fn perfect_alice_doc() -> JsonVal {
    alice_doc(vec![
        ("0", bot_phrase(ALICE_SEQ[0])),
        ("1", bot_phrase(ALICE_SEQ[1])),
        ("2", bot_phrase(ALICE_SEQ[2])),
        ("3", bot_phrase(ALICE_SEQ[3])),
    ])
}

fn assert_badge_request(req: &SocialSetRequest, publisher: &str, badge: &str, holder: &str) {
    assert_eq!(req.target, "social.near");
    assert_eq!(req.deposit, DEPOSIT_FOR_SOCIAL_SET);
    assert_eq!(req.gas, GAS_FOR_SOCIAL_SET);
    let top = match &req.data {
        JsonVal::Object(top) => top,
        _ => panic!("badge document is not an object"),
    };
    assert_eq!(top.len(), 1);
    assert_eq!(top[0].0, publisher);
    let app = match &top[0].1 {
        JsonVal::Object(app) => app,
        _ => panic!("application data is not an object"),
    };
    assert_eq!(app.len(), 1);
    assert_eq!(app[0].0, "badge");
    let b = match &app[0].1 {
        JsonVal::Object(b) => b,
        _ => panic!("badge data is not an object"),
    };
    assert_eq!(b.len(), 1);
    assert_eq!(b[0].0, badge);
    let h = match &b[0].1 {
        JsonVal::Object(h) => h,
        _ => panic!("holder data is not an object"),
    };
    assert_eq!(h.len(), 1);
    assert_eq!(h[0].0, "holder");
    let acc = match &h[0].1 {
        JsonVal::Object(acc) => acc,
        _ => panic!("holder entry is not an object"),
    };
    assert_eq!(acc.len(), 1);
    assert_eq!(acc[0].0, holder);
    match &acc[0].1 {
        JsonVal::Text(s) => assert_eq!(s, ""),
        _ => panic!("holder value is not text"),
    }
}

#[test]
fn derive_sequence_is_deterministic() {
    let c = contract();
    let a1 = c.get_turns("alice.near");
    let a2 = c.get_turns("alice.near");
    assert_eq!(a1, a2);
    let b1 = c.get_turns("bob.near");
    let b2 = c.get_turns("bob.near");
    assert_eq!(b1, b2);
    assert_ne!(a1, b1);
}

#[test]
fn derive_sequence_exact_values() {
    let c = contract();
    assert_eq!(c.get_turns("alice.near"), ALICE_SEQ.to_vec());
    assert_eq!(c.get_turns("bob.near"), vec![0, 2, 1, 9, 6, 3, 8, 5, 7, 4]);
    assert_eq!(c.get_turns("carol.near"), vec![0, 1, 8, 2, 5, 7, 4, 9, 3, 6]);
}

#[test]
fn derive_sequence_distinct_and_bounded() {
    let c = contract();
    for id in ["alice.near", "bob.near", "carol.near", "", "x", "a-very-long-account.near"] {
        let turns = c.get_turns(id);
        for (i, v) in turns.iter().enumerate() {
            assert!(*v < DICTIONARY_VALUES);
            for w in turns.iter().skip(i + 1) {
                assert_ne!(v, w);
            }
        }
    }
}

#[test]
fn get_turn_pair_is_stable_unordered() {
    let c = contract();
    for turn in 0..MAX_TURNS {
        let left = c.get_turn("alice.near", turn, 0).unwrap();
        let right = c.get_turn("alice.near", turn, 1).unwrap();
        let again = c.get_turn("alice.near", turn, 0).unwrap();
        assert_eq!(left, again);
        assert_eq!(left[0], right[1]);
        assert_eq!(left[1], right[0]);
        assert_eq!(left[0], bot_phrase(ALICE_SEQ[turn]));
        assert_eq!(left[1], hot_phrase(ALICE_SEQ[turn]));
    }
}

#[test]
fn get_turn_out_of_range_fails() {
    let c = contract();
    let r = c.get_turn("alice.near", 10, 0);
    assert!(matches!(r, Err(GameError::WrongTurn)));
    assert!(c.get_turn("alice.near", 9, 1).is_ok());
}

#[test]
fn get_binary_random_uses_first_seed_byte() {
    assert_eq!(get_binary_random(&vec![0u8; 32]), 0);
    assert_eq!(get_binary_random(&vec![7u8; 32]), 1);
    assert_eq!(get_binary_random(&vec![8u8, 1u8]), 0);
}

#[test]
fn parse_turn_key_cases() {
    assert_eq!(parse_turn_key(&"0".to_string()), TurnKey::Turn(0));
    assert_eq!(parse_turn_key(&"3".to_string()), TurnKey::Turn(3));
    assert_eq!(parse_turn_key(&"003".to_string()), TurnKey::Turn(3));
    assert_eq!(parse_turn_key(&"4".to_string()), TurnKey::OutOfRange);
    assert_eq!(parse_turn_key(&"99999999999999999999999".to_string()), TurnKey::OutOfRange);
    assert_eq!(parse_turn_key(&"".to_string()), TurnKey::NotNumeric);
    assert_eq!(parse_turn_key(&"+1".to_string()), TurnKey::NotNumeric);
    assert_eq!(parse_turn_key(&"two".to_string()), TurnKey::NotNumeric);
}

#[test]
fn nft_mint_builds_fetch_request() {
    let c = contract();
    let req = c.nft_mint("alice.near".to_string(), "alice.near".to_string()).unwrap();
    assert_eq!(req.target, "social.near");
    assert_eq!(req.keys, vec!["alice.near/HotOrBot/**".to_string()]);
    assert!(req.options.is_none());
    assert_eq!(req.gas, GAS_FOR_SOCIAL_GET);
    assert_eq!(req.callback_gas, GAS_FOR_AFTER_SOCIAL_GET);
}

#[test]
fn nft_mint_rejects_other_receiver() {
    let c = contract();
    let r = c.nft_mint("mallory.near".to_string(), "alice.near".to_string());
    assert!(matches!(r, Err(GameError::IllegalReceiver)));
}

#[test]
fn nft_mint_rejects_already_finalized() {
    let mut c = contract();
    let receipt = c.after_social_get(Ok(perfect_alice_doc()), 10).unwrap();
    assert_eq!(receipt.score, MAX_TURNS);
    let r = c.nft_mint("alice.near".to_string(), "alice.near".to_string());
    assert!(matches!(r, Err(GameError::AlreadyFinalized)));
    // the rejected retry left the ledger unchanged
    assert_eq!(c.get_score("alice.near".to_string()), Some(MAX_TURNS));
}

#[test]
fn perfect_settlement_mints_and_publishes() {
    let mut c = contract();
    let receipt = c.after_social_get(Ok(perfect_alice_doc()), 555).unwrap();
    assert_eq!(receipt.score, 4);
    assert_eq!(receipt.actions.len(), 2);
    match &receipt.actions[0] {
        SettleAction::MintNft { receiver } => assert_eq!(receiver, "alice.near"),
        _ => panic!("first action is not a mint"),
    }
    match &receipt.actions[1] {
        SettleAction::PublishBadge { request } => {
            assert_badge_request(request, "game.near", "winner", "alice.near")
        },
        _ => panic!("second action is not a badge publish"),
    }
    assert_eq!(c.get_score("alice.near".to_string()), Some(4));
}

#[test]
fn imperfect_settlement_refunds() {
    let mut c = contract();
    // turn 2 claims the human phrase instead of the bot phrase
    let doc = alice_doc(vec![
        ("0", bot_phrase(ALICE_SEQ[0])),
        ("1", bot_phrase(ALICE_SEQ[1])),
        ("2", hot_phrase(ALICE_SEQ[2])),
        ("3", bot_phrase(ALICE_SEQ[3])),
    ]);
    let receipt = c.after_social_get(Ok(doc), 777).unwrap();
    assert_eq!(receipt.score, 3);
    assert_eq!(receipt.actions.len(), 1);
    match &receipt.actions[0] {
        SettleAction::Refund { receiver, amount } => {
            assert_eq!(receiver, "alice.near");
            assert_eq!(*amount, 777);
        },
        _ => panic!("action is not a refund"),
    }
    assert_eq!(c.get_score("alice.near".to_string()), Some(3));
}

#[test]
fn empty_round_scores_zero_and_refunds() {
    let mut c = contract();
    let doc = alice_doc(vec![]);
    let receipt = c.after_social_get(Ok(doc), 9).unwrap();
    assert_eq!(receipt.score, 0);
    assert_eq!(receipt.actions.len(), 1);
    assert!(matches!(&receipt.actions[0], SettleAction::Refund { amount: 9, .. }));
    assert_eq!(c.get_score("alice.near".to_string()), Some(0));
}

#[test]
fn illegal_turn_index_fails_whole_settlement() {
    let mut c = contract();
    let doc = alice_doc(vec![("0", bot_phrase(ALICE_SEQ[0])), ("7", bot_phrase(ALICE_SEQ[1]))]);
    let r = c.after_social_get(Ok(doc), 10);
    assert!(matches!(r, Err(GameError::IllegalTurnIndex)));
    // no partial ledger write happened
    assert_eq!(c.get_score("alice.near".to_string()), None);
}

#[test]
fn fetch_failure_settles_nothing() {
    let mut c = contract();
    let receipt = c.after_social_get(Err(PromiseFailure::Failed), 10).unwrap();
    assert_eq!(receipt.score, 0);
    assert!(receipt.actions.is_empty());
    assert_eq!(c.get_score("alice.near".to_string()), None);
    let receipt = c.after_social_get(Err(PromiseFailure::NotReady), 10).unwrap();
    assert_eq!(receipt.score, 0);
    assert!(receipt.actions.is_empty());
}

#[test]
fn malformed_documents_are_rejected() {
    let mut c = contract();
    assert!(matches!(
        c.after_social_get(Ok(text("junk")), 1),
        Err(GameError::NotAnObject)
    ));
    assert!(matches!(
        c.after_social_get(Ok(JsonVal::Other), 1),
        Err(GameError::NotAnObject)
    ));
    // player entry without the application key
    let doc = obj(vec![("alice.near", obj(vec![("OtherApp", obj(vec![]))]))]);
    assert!(matches!(c.after_social_get(Ok(doc), 1), Err(GameError::MissingData)));
    // application data that is not an object of turns
    let doc = obj(vec![("alice.near", obj(vec![("HotOrBot", text("nope"))]))]);
    assert!(matches!(c.after_social_get(Ok(doc), 1), Err(GameError::MissingTurns)));
    // a turn key that is not a number
    let doc = alice_doc(vec![("first", bot_phrase(0))]);
    assert!(matches!(c.after_social_get(Ok(doc), 1), Err(GameError::BadTurnKey)));
    // two spellings of the same turn
    let doc = alice_doc(vec![("1", bot_phrase(ALICE_SEQ[1])), ("01", bot_phrase(ALICE_SEQ[1]))]);
    assert!(matches!(c.after_social_get(Ok(doc), 1), Err(GameError::DuplicateTurn)));
    // an answer record that is not an object
    let doc = obj(vec![(
        "alice.near",
        obj(vec![("HotOrBot", obj(vec![("0", text("claim"))]))]),
    )]);
    assert!(matches!(c.after_social_get(Ok(doc), 1), Err(GameError::MalformedTurnData)));
    // an answer value that is not text
    let doc = obj(vec![(
        "alice.near",
        obj(vec![("HotOrBot", obj(vec![("0", obj(vec![("bot", JsonVal::Other)]))]))]),
    )]);
    assert!(matches!(c.after_social_get(Ok(doc), 1), Err(GameError::AnswerNotText)));
    // nothing was written by any of the rejected attempts
    assert_eq!(c.get_score("alice.near".to_string()), None);
}

#[test]
fn duplicate_keys_in_document_are_rejected() {
    let mut c = contract();
    // the same answer key twice inside one turn record
    let turn = JsonVal::Object(vec![
        ("bot".to_string(), JsonVal::Text(bot_phrase(ALICE_SEQ[0]))),
        ("bot".to_string(), JsonVal::Text(bot_phrase(ALICE_SEQ[0]))),
    ]);
    let doc = obj(vec![("alice.near", obj(vec![("HotOrBot", obj(vec![("0", turn)]))]))]);
    assert!(matches!(c.after_social_get(Ok(doc), 1), Err(GameError::DuplicateAnswerKey)));
    // the same identity twice in one document
    let doc = JsonVal::Object(vec![
        ("alice.near".to_string(), obj(vec![("HotOrBot", obj(vec![]))])),
        ("alice.near".to_string(), obj(vec![("HotOrBot", obj(vec![]))])),
    ]);
    assert!(matches!(c.after_social_get(Ok(doc), 1), Err(GameError::DuplicateIdentity)));
    assert_eq!(c.get_score("alice.near".to_string()), None);
}

#[test]
fn settled_identity_cannot_be_settled_again_via_document() {
    let mut c = contract();
    c.after_social_get(Ok(perfect_alice_doc()), 10).unwrap();
    let r = c.after_social_get(Ok(perfect_alice_doc()), 10);
    assert!(matches!(r, Err(GameError::AlreadyFinalized)));
    assert_eq!(c.get_score("alice.near".to_string()), Some(4));
}

#[test]
fn multi_player_document_settles_each_in_isolation() {
    let mut c = contract();
    let bob_seq = c.get_turns("bob.near");
    let alice_turns = obj(vec![
        ("0", obj(vec![("bot", JsonVal::Text(bot_phrase(ALICE_SEQ[0])))])),
        ("1", obj(vec![("bot", JsonVal::Text(bot_phrase(ALICE_SEQ[1])))])),
        ("2", obj(vec![("bot", JsonVal::Text(bot_phrase(ALICE_SEQ[2])))])),
        ("3", obj(vec![("bot", JsonVal::Text(bot_phrase(ALICE_SEQ[3])))])),
    ]);
    let bob_turns = obj(vec![
        ("0", obj(vec![("bot", JsonVal::Text(bot_phrase(bob_seq[0])))])),
        ("1", obj(vec![("bot", JsonVal::Text(hot_phrase(bob_seq[1])))])),
    ]);
    let doc = obj(vec![
        ("alice.near", obj(vec![("HotOrBot", alice_turns)])),
        ("bob.near", obj(vec![("HotOrBot", bob_turns)])),
    ]);
    let receipt = c.after_social_get(Ok(doc), 42).unwrap();
    // the reported score is the last settled entry's own score, not a sum
    assert_eq!(receipt.score, 1);
    assert_eq!(c.get_score("alice.near".to_string()), Some(4));
    assert_eq!(c.get_score("bob.near".to_string()), Some(1));
    // alice won, bob is refunded
    assert_eq!(receipt.actions.len(), 3);
    assert!(matches!(&receipt.actions[0], SettleAction::MintNft { .. }));
    assert!(matches!(&receipt.actions[1], SettleAction::PublishBadge { .. }));
    match &receipt.actions[2] {
        SettleAction::Refund { receiver, amount } => {
            assert_eq!(receiver, "bob.near");
            assert_eq!(*amount, 42);
        },
        _ => panic!("third action is not a refund"),
    }
}

#[test]
fn set_winner_builds_badge_write() {
    let c = contract();
    let req = c.set_winner("carol.near".to_string());
    assert_badge_request(&req, "game.near", "winner", "carol.near");
}

#[test]
fn internal_social_set_builds_any_badge() {
    let c = contract();
    let req = c.internal_social_set("veteran".to_string(), "bob.near".to_string());
    assert_badge_request(&req, "game.near", "veteran", "bob.near");
}

#[test]
fn get_score_reads_only() {
    let c = contract();
    assert_eq!(c.get_score("alice.near".to_string()), None);
}
