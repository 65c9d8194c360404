use rand::seq::SliceRandom;
use vstd::prelude::*;
use vstd::string::StringExecFns;

use super::round::{InvalidMove, RoundData, RoundState};

verus! {

/// Relies on rand's `SliceRandom::shuffle` with `thread_rng()`: the shuffle
/// only swaps entries, so the words come back in some order, none lost or
/// added. (`thread_rng` panics only if the operating system cannot seed it,
/// which no argument decides.)
#[verifier::external_body]
fn shuffle_words(words: &mut Vec<String>)
    ensures
        final(words)@.to_multiset() == old(words)@.to_multiset(),
        final(words)@.len() == old(words)@.len(),
{
    words.shuffle(&mut rand::thread_rng());
}

/// A move of the game, as decoded from a player's message.
#[derive(Debug)]
pub enum JustOneMove {
    Guess(String),
    Hint(String),
    SetDuplicate { hint_id: String },
    SetUnique { hint_id: String },
    RevealHints,
    CorrectGuess,
    WrongGuess,
    NextRound,
}

/// A game: its players, its rounds in order, and the shuffled words the
/// rounds take their secret from.
pub struct GameData {
    pub players: Vec<String>,
    pub round: usize,
    pub rounds: Vec<RoundData>,
    pub words: Vec<String>,
    pub cur_word: usize,
}

impl GameData {
    /// The game's invariant: there are players and words, `round` counts
    /// the rounds, the last of which is the current one, and the word cursor
    /// moves with the rounds.
    pub open spec fn wf(&self) -> bool {
        &&& self.players@.len() > 0
        &&& self.words@.len() > 0
        &&& self.round == self.rounds@.len()
        &&& self.round >= 1
        &&& self.cur_word == self.round
        &&& forall|k: int| 0 <= k < self.rounds@.len() ==> (#[trigger] self.rounds@[k]).wf()
    }

    /// The round being played.
    pub open spec fn current(&self) -> RoundData {
        self.rounds@[self.round - 1]
    }

    /// True when `r` is the round that the game starts next: its guesser is
    /// the next player in turn and its word the next word, both wrapping
    /// around.
    pub open spec fn is_next_round(&self, r: RoundData) -> bool {
        r.is_fresh(
            self.players@,
            self.players@[(self.round as int) % (self.players@.len() as int)]@,
            self.words@[(self.cur_word as int) % (self.words@.len() as int)]@,
        )
    }

    /// True when `g` is a game just started for `players` with a shuffled
    /// copy of `words`.
    pub open spec fn is_new_game(g: GameData, players: Seq<String>, words: Seq<String>) -> bool {
        &&& g.wf()
        &&& g.players@ == players
        &&& g.words@.to_multiset() == words.to_multiset()
        &&& g.round == 1
        &&& g.rounds@.len() == 1
        &&& g.rounds@[0].is_fresh(players, players[0]@, g.words@[0]@)
    }

    /// True when `post` is `pre` with one more round appended.
    pub open spec fn advanced(pre: GameData, post: GameData) -> bool {
        &&& post.players == pre.players
        &&& post.words == pre.words
        &&& post.round == pre.round + 1
        &&& post.cur_word == pre.cur_word + 1
        &&& post.rounds@.len() == pre.rounds@.len() + 1
        &&& post.rounds@.drop_last() == pre.rounds@
        &&& pre.is_next_round(post.rounds@.last())
    }

    /// The effect of move `mv` by `user` on the current round, from `pre` to
    /// `post`; a new round is not such a move.
    pub open spec fn round_step(
        pre: RoundData,
        post: RoundData,
        user: Seq<char>,
        mv: JustOneMove,
        r: Result<(), InvalidMove>,
    ) -> bool {
        match mv {
            JustOneMove::Guess(t) => RoundData::guess_step(pre, post, user, t@, r),
            JustOneMove::Hint(t) => RoundData::hint_step(pre, post, user, t@, r),
            JustOneMove::SetDuplicate { hint_id } => RoundData::mark_step(pre, post, user, hint_id@, true, r),
            JustOneMove::SetUnique { hint_id } => RoundData::mark_step(pre, post, user, hint_id@, false, r),
            JustOneMove::RevealHints => RoundData::reveal_step(pre, post, user, r),
            JustOneMove::CorrectGuess => RoundData::judge_step(pre, post, user, true, r),
            JustOneMove::WrongGuess => RoundData::judge_step(pre, post, user, false, r),
            JustOneMove::NextRound => false,
        }
    }

    /// The effect of `make_move`.
    pub open spec fn move_step(
        pre: GameData,
        post: GameData,
        user: Seq<char>,
        m: Result<JustOneMove, String>,
        r: Result<(), InvalidMove>,
    ) -> bool {
        match m {
            Err(e) => r matches Err(InvalidMove::CouldNotParse { msg }) && msg@ == e@ && post == pre,
            Ok(JustOneMove::NextRound) => r is Ok && Self::advanced(pre, post),
            Ok(mv) => {
                &&& post.players == pre.players
                &&& post.words == pre.words
                &&& post.round == pre.round
                &&& post.cur_word == pre.cur_word
                &&& post.rounds@ == pre.rounds@.update(pre.round - 1, post.current())
                &&& Self::round_step(pre.current(), post.current(), user, mv, r)
            },
        }
    }

    /// True when `view` is what `viewer` may see of `pre`: every finished
    /// round as it is, the current one filtered for the viewer, and no word
    /// of the word source.
    pub open spec fn filter_view(pre: GameData, view: GameData, viewer: Seq<char>) -> bool {
        &&& view.players@ == pre.players@
        &&& view.round == pre.round
        &&& view.cur_word == pre.cur_word
        &&& view.words@.len() == 0
        &&& view.rounds@.len() == pre.rounds@.len()
        &&& forall|k: int|
            0 <= k < pre.rounds@.len() - 1 ==> RoundData::same_round(
                #[trigger] view.rounds@[k],
                pre.rounds@[k],
            )
        &&& pre.rounds@.len() > 0 ==> RoundData::filter_view(
            pre.rounds@.last(),
            view.rounds@.last(),
            viewer,
        )
    }

    /// A new round is always accepted, whatever the state of the current
    /// one, and appends exactly one round.
    pub proof fn lemma_next_round_always(
        pre: GameData,
        post: GameData,
        user: Seq<char>,
        r: Result<(), InvalidMove>,
    )
        requires
            Self::move_step(pre, post, user, Ok(JustOneMove::NextRound), r),
        ensures
            r is Ok,
            post.rounds@.len() == pre.rounds@.len() + 1,
            post.rounds@.drop_last() == pre.rounds@,
            post.rounds@.last().cur_state == RoundState::GivingHints,
    {
    }

    /// Starts a game for `players`: the words are shuffled once, and the
    /// first round has the first player guess the first word.
    pub fn new(players: Vec<String>, words: Vec<String>) -> (r: GameData)
        requires
            players@.len() > 0,
            words@.len() > 0,
        ensures
            Self::is_new_game(r, players@, words@),
    {
        let mut words = words;
        shuffle_words(&mut words);
        let mut game = GameData { players, round: 0, rounds: Vec::new(), words, cur_word: 0 };
        game.new_round();
        game
    }

    /// Appends a new round, whatever the state of the current one.
    fn new_round(&mut self)
        requires
            old(self).players@.len() > 0,
            old(self).words@.len() > 0,
            old(self).round == old(self).rounds@.len(),
            old(self).cur_word == old(self).round,
            old(self).round < usize::MAX,
            forall|k: int| 0 <= k < old(self).rounds@.len() ==> (#[trigger] old(self).rounds@[k]).wf(),
        ensures
            final(self).wf(),
            Self::advanced(*old(self), *final(self)),
    {
        let guesser = self.players[self.round % self.players.len()].clone();
        let word = self.words[self.cur_word % self.words.len()].clone();
        let players = self.players.clone();
        assert(players@ == self.players@);
        let r = RoundData::new(players, guesser, word);
        let ghost pre = self.rounds@;
        self.rounds.push(r);
        assert(self.rounds@.drop_last() == pre);
        self.cur_word = self.cur_word + 1;
        self.round = self.round + 1;
    }

    /// What `user` may see of the game.
    pub fn filter(&self, user: &str) -> (r: GameData)
        ensures
            Self::filter_view(*self, r, user@),
    {
        let n = self.rounds.len();
        let mut rounds: Vec<RoundData> = Vec::new();
        let mut k: usize = 0;
        while k + 1 < n
            invariant
                n == self.rounds@.len(),
                k <= n,
                n > 0 ==> k < n,
                rounds@.len() == k,
                forall|j: int| 0 <= j < k ==> RoundData::same_round(#[trigger] rounds@[j], self.rounds@[j]),
            decreases n - k,
        {
            rounds.push(self.rounds[k].clone());
            k = k + 1;
        }
        if n > 0 {
            rounds.push(self.rounds[n - 1].filter(user));
        }
        let players = self.players.clone();
        assert(players@ == self.players@);
        GameData { players, round: self.round, rounds, words: Vec::new(), cur_word: self.cur_word }
    }

    /// Applies the move `m` of `user`: a move that could not be decoded
    /// carries the decoder's message, a new round always succeeds, and every
    /// other move goes to the current round.
    pub fn make_move(&mut self, req_uid: &String, m: Result<JustOneMove, String>) -> (r: Result<(), InvalidMove>)
        requires
            old(self).wf(),
            old(self).round < usize::MAX,
        ensures
            final(self).wf(),
            Self::move_step(*old(self), *final(self), req_uid@, m, r),
    {
        let mv = match m {
            Err(msg) => {
                return Err(InvalidMove::CouldNotParse { msg });
            },
            Ok(mv) => mv,
        };
        if let JustOneMove::NextRound = mv {
            self.new_round();
            return Ok(());
        }
        let ghost pre = *self;
        let mut cur = self.rounds.pop().unwrap();
        let r = match mv {
            JustOneMove::Guess(t) => cur.guess(req_uid.as_str(), t),
            JustOneMove::Hint(t) => cur.give_hint(req_uid, t),
            JustOneMove::SetDuplicate { hint_id } => cur.set_duplicate(req_uid.as_str(), hint_id.as_str()),
            JustOneMove::SetUnique { hint_id } => cur.set_unique(req_uid.as_str(), hint_id.as_str()),
            JustOneMove::RevealHints => cur.done_removing_dupes(req_uid.as_str()),
            JustOneMove::CorrectGuess => cur.set_guess_correctness(req_uid.as_str(), true),
            JustOneMove::WrongGuess => cur.set_guess_correctness(req_uid.as_str(), false),
            JustOneMove::NextRound => Ok(()),
        };
        self.rounds.push(cur);
        assert(self.rounds@ == pre.rounds@.update(pre.round - 1, self.current()));
        r
    }
}

} // verus!
