//! The phrase dictionary collaborator: one (bot phrase, human phrase) pair for
//! each challenge index. The core only ever reads it through the two lookup
//! operations, so it is supplied as plain data when the contract is built.
use vstd::prelude::*;
use crate::DICTIONARY_VALUES;

verus! {

/// A fixed table of `DICTIONARY_VALUES` phrase pairs: for each challenge
/// index, the machine-authored ("bot") phrase and the human-authored ("hot")
/// phrase a player must tell apart.
pub struct Dictionary {
    bot: Vec<String>,
    hot: Vec<String>,
}

impl Dictionary {
    /// Both tables hold exactly one phrase per challenge index.
    pub closed spec fn wf(&self) -> bool {
        &&& self.bot@.len() == DICTIONARY_VALUES
        &&& self.hot@.len() == DICTIONARY_VALUES
    }

    /// The bot phrase for a challenge index.
    pub closed spec fn bot_at(&self, index: int) -> Seq<char> {
        self.bot@[index]@
    }

    /// The human phrase for a challenge index.
    pub closed spec fn hot_at(&self, index: int) -> Seq<char> {
        self.hot@[index]@
    }

    pub fn new(bot: Vec<String>, hot: Vec<String>) -> (d: Dictionary)
        requires
            bot@.len() == DICTIONARY_VALUES,
            hot@.len() == DICTIONARY_VALUES,
        ensures
            d.wf(),
            forall|i: int| 0 <= i < DICTIONARY_VALUES ==> d.bot_at(i) == bot@[i]@,
            forall|i: int| 0 <= i < DICTIONARY_VALUES ==> d.hot_at(i) == hot@[i]@,
    {
        Dictionary { bot, hot }
    }

    pub fn get_bot(&self, index: u32) -> (r: &String)
        requires
            self.wf(),
            index < DICTIONARY_VALUES,
        ensures
            r@ == self.bot_at(index as int),
    {
        &self.bot[index as usize]
    }

    pub fn get_hot(&self, index: u32) -> (r: &String)
        requires
            self.wf(),
            index < DICTIONARY_VALUES,
        ensures
            r@ == self.hot_at(index as int),
    {
        &self.hot[index as usize]
    }
}

} // verus!
