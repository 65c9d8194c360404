use vstd::prelude::*;
use vstd::pervasive::VecAdditionalExecFns;
use vstd::string::StringExecFns;

verus! {

/// The lower-case form of a text, as the standard library computes it.
pub uninterp spec fn lower_of(s: Seq<char>) -> Seq<char>;

/// Relies on `str::to_lowercase`: its result depends on the characters alone.
#[verifier::external_body]
fn lowercase(s: &str) -> (r: String)
    ensures
        r@ == lower_of(s@),
{
    s.to_lowercase()
}

/// Why a move was refused.
#[derive(Debug)]
pub enum InvalidMove {
    CouldNotParse { msg: String },
    NotYourTurn { msg: String },
    WrongState { msg: String },
    InvalidUser { msg: String },
}

impl InvalidMove {
    /// The human-readable message carried by the error.
    pub fn message(&self) -> (r: &String)
        ensures
            r == match self {
                InvalidMove::CouldNotParse { msg } => msg,
                InvalidMove::NotYourTurn { msg } => msg,
                InvalidMove::WrongState { msg } => msg,
                InvalidMove::InvalidUser { msg } => msg,
            },
    {
        match self {
            InvalidMove::CouldNotParse { msg } => msg,
            InvalidMove::NotYourTurn { msg } => msg,
            InvalidMove::WrongState { msg } => msg,
            InvalidMove::InvalidUser { msg } => msg,
        }
    }
}

/// The phases of a round, in the order they are passed through.
#[derive(Debug, Clone, Copy, PartialEq, Eq, Structural)]
pub enum RoundState {
    GivingHints,
    RemovingDuplicates,
    Guessing,
    RoundFinished,
}

impl RoundState {
    /// Position of the phase in the round's order.
    pub open spec fn rank(self) -> nat {
        match self {
            RoundState::GivingHints => 0,
            RoundState::RemovingDuplicates => 1,
            RoundState::Guessing => 2,
            RoundState::RoundFinished => 3,
        }
    }

    /// True when this phase comes before the guessing phase.
    pub fn before_guessing(&self) -> (r: bool)
        ensures
            r == (self.rank() < RoundState::Guessing.rank()),
    {
        match self {
            RoundState::GivingHints | RoundState::RemovingDuplicates => true,
            _ => false,
        }
    }

    /// The phase's name.
    pub fn name(&self) -> &'static str {
        match self {
            RoundState::GivingHints => "GivingHints",
            RoundState::RemovingDuplicates => "RemovingDuplicates",
            RoundState::Guessing => "Guessing",
            RoundState::RoundFinished => "RoundFinished",
        }
    }
}

/// A guess made by the round's guesser.
pub struct Guess {
    pub val: String,
    pub is_correct: bool,
    pub user_check: bool,
}

impl Clone for Guess {
    fn clone(&self) -> (r: Guess)
        ensures
            r == *self,
    {
        Guess { val: self.val.clone(), is_correct: self.is_correct, user_check: self.user_check }
    }
}

/// A hint given by a player other than the guesser.
pub struct Hint {
    pub val: String,
    pub duplicate: bool,
}

impl Clone for Hint {
    fn clone(&self) -> (r: Hint)
        ensures
            r == *self,
    {
        Hint { val: self.val.clone(), duplicate: self.duplicate }
    }
}

/// The texts of a sequence of strings.
pub open spec fn texts(s: Seq<String>) -> Seq<Seq<char>> {
    s.map_values(|x: String| x@)
}

/// How many times `x` occurs in `s`.
pub open spec fn count_of(s: Seq<Seq<char>>, x: Seq<char>) -> nat
    decreases s.len(),
{
    if s.len() == 0 {
        0
    } else {
        count_of(s.drop_last(), x) + if s.last() == x {
            1nat
        } else {
            0nat
        }
    }
}

/// How many entries of `s`, among the first `n`, equal `x`.
fn count_equal(s: &Vec<String>, x: &String, n: usize) -> (r: usize)
    requires
        n <= s@.len(),
    ensures
        r == count_of(texts(s@).subrange(0, n as int), x@),
{
    let mut c: usize = 0;
    let mut j: usize = 0;
    while j < n
        invariant
            j <= n,
            n <= s@.len(),
            c == count_of(texts(s@).subrange(0, j as int), x@),
            c <= j,
        decreases n - j,
    {
        assert(texts(s@).subrange(0, j + 1).drop_last() == texts(s@).subrange(0, j as int));
        if s[j] == *x {
            c = c + 1;
        }
        j = j + 1;
    }
    c
}

/// For each entry of `folded`, whether the same text occurs in it more than once.
pub fn duplicate_flags(folded: &Vec<String>) -> (r: Vec<bool>)
    ensures
        r@.len() == folded@.len(),
        forall|i: int|
            0 <= i < folded@.len() ==> #[trigger] r@[i] == (count_of(texts(folded@), folded@[i]@)
                > 1),
{
    let n = folded.len();
    let mut flags: Vec<bool> = Vec::new();
    let mut i: usize = 0;
    assert(texts(folded@).subrange(0, n as int) == texts(folded@));
    while i < n
        invariant
            i <= n,
            n == folded@.len(),
            texts(folded@).subrange(0, n as int) == texts(folded@),
            flags@.len() == i,
            forall|k: int|
                0 <= k < i ==> #[trigger] flags@[k] == (count_of(texts(folded@), folded@[k]@)
                    > 1),
        decreases n - i,
    {
        let c = count_equal(folded, &folded[i], n);
        flags.push(c > 1);
        i = i + 1;
    }
    flags
}

/// True when no two entries of `hs` belong to the same user.
pub open spec fn users_unique(hs: Seq<(String, Hint)>) -> bool {
    forall|i: int, j: int|
        0 <= i < hs.len() && 0 <= j < hs.len() && i != j ==> #[trigger] hs[i].0@ != #[trigger] hs[j].0@
}

/// True when entry `k` of `hs` is the hint of `user`.
pub open spec fn hint_at(hs: Seq<(String, Hint)>, user: Seq<char>, k: int) -> bool {
    0 <= k < hs.len() && hs[k].0@ == user
}

/// True when `user` has given a hint.
pub open spec fn has_hint(hs: Seq<(String, Hint)>, user: Seq<char>) -> bool {
    exists|k: int| hint_at(hs, user, k)
}

/// Each hint as the pair of its author and its text.
pub open spec fn entries(hs: Seq<(String, Hint)>) -> Seq<(Seq<char>, Seq<char>)> {
    hs.map_values(|e: (String, Hint)| (e.0@, e.1.val@))
}

/// `es` with the text of `user` set to `val`: replaced in place when the user
/// has an entry, appended otherwise.
pub open spec fn upserted(es: Seq<(Seq<char>, Seq<char>)>, user: Seq<char>, val: Seq<char>) -> Seq<
    (Seq<char>, Seq<char>),
> {
    if exists|k: int| 0 <= k < es.len() && es[k].0 == user {
        es.update(choose|k: int| 0 <= k < es.len() && es[k].0 == user, (user, val))
    } else {
        es.push((user, val))
    }
}

/// The lower-case texts of the hints, in order.
pub open spec fn folded_texts(hs: Seq<(String, Hint)>) -> Seq<Seq<char>> {
    hs.map_values(|e: (String, Hint)| lower_of(e.1.val@))
}

/// True when every hint is flagged duplicate exactly when its lower-case
/// text is shared with another hint.
pub open spec fn flags_fresh(hs: Seq<(String, Hint)>) -> bool {
    forall|i: int|
        0 <= i < hs.len() ==> #[trigger] hs[i].1.duplicate == (count_of(
            folded_texts(hs),
            lower_of(hs[i].1.val@),
        ) > 1)
}

/// The users who have given a hint.
pub open spec fn hinters(hs: Seq<(String, Hint)>) -> Set<Seq<char>> {
    hs.map_values(|e: (String, Hint)| e.0@).to_set()
}

/// A hint overrides any duplicate flag set by hand: after a hint is
/// accepted, every flag again says whether the hint's lower-case text is
/// shared, whatever was marked before.
pub proof fn lemma_hint_resets_marks(
    pre: RoundData,
    mid: RoundData,
    post: RoundData,
    marker: Seq<char>,
    hint_user: Seq<char>,
    dup: bool,
    r1: Result<(), InvalidMove>,
    user: Seq<char>,
    text: Seq<char>,
)
    requires
        RoundData::mark_step(pre, mid, marker, hint_user, dup, r1),
        RoundData::hint_step(mid, post, user, text, Ok(())),
    ensures
        forall|i: int|
            0 <= i < post.hints@.len() ==> #[trigger] post.hints@[i].1.duplicate == (count_of(
                folded_texts(post.hints@),
                lower_of(post.hints@[i].1.val@),
            ) > 1),
{
}

/// An accepted hint moves the round to the review of duplicates exactly
/// when the number of distinct users who have hinted is one less than the
/// number of players, whatever the hints say.
pub proof fn lemma_hints_complete(pre: RoundData, post: RoundData, user: Seq<char>, text: Seq<char>)
    requires
        pre.players@.len() > 0,
        post.wf(),
        RoundData::hint_step(pre, post, user, text, Ok(())),
    ensures
        (post.cur_state == RoundState::RemovingDuplicates) == (hinters(post.hints@).len()
            == pre.players@.len() - 1),
{
    let us = post.hints@.map_values(|e: (String, Hint)| e.0@);
    assert(us.no_duplicates()) by {
        assert forall|a: int, b: int| 0 <= a < us.len() && 0 <= b < us.len() && a != b implies us[a] != us[b] by {
            assert(post.hints@[a].0@ != post.hints@[b].0@);
        }
    }
    us.unique_seq_to_set();
}

/// One round: who plays, who guesses, the hints and guesses so far, the
/// secret word and the phase.
pub struct RoundData {
    pub players: Vec<String>,
    pub guesser: String,
    pub hints: Vec<(String, Hint)>,
    pub guesses: Vec<Guess>,
    pub word: String,
    pub cur_state: RoundState,
}

/// Index of the hint of `user` in `hs`, if there is one.
fn find_hint(hs: &Vec<(String, Hint)>, user: &str) -> (r: Option<usize>)
    ensures
        r matches Some(k) ==> hint_at(hs@, user@, k as int),
        r is None ==> !has_hint(hs@, user@),
{
    let u = user.to_owned();
    let mut k: usize = 0;
    while k < hs.len()
        invariant
            k <= hs@.len(),
            u@ == user@,
            forall|j: int| 0 <= j < k ==> hs@[j].0@ != user@,
        decreases hs@.len() - k,
    {
        if hs[k].0 == u {
            return Some(k);
        }
        k = k + 1;
    }
    None
}

/// True when `a` and `b` name the same user.
fn same_user(a: &String, b: &str) -> (r: bool)
    ensures
        r == (a@ == b@),
{
    *a == b.to_owned()
}

/// What a round holds, as plain values.
pub struct RoundView {
    pub players: Seq<Seq<char>>,
    pub guesser: Seq<char>,
    pub hints: Seq<(Seq<char>, Seq<char>, bool)>,
    pub guesses: Seq<(Seq<char>, bool, bool)>,
    pub word: Seq<char>,
    pub cur_state: RoundState,
}

impl View for RoundData {
    type V = RoundView;

    open spec fn view(&self) -> RoundView {
        RoundView {
            players: texts(self.players@),
            guesser: self.guesser@,
            hints: self.hints@.map_values(|e: (String, Hint)| (e.0@, e.1.val@, e.1.duplicate)),
            guesses: self.guesses@.map_values(|g: Guess| (g.val@, g.is_correct, g.user_check)),
            word: self.word@,
            cur_state: self.cur_state,
        }
    }
}

impl Clone for RoundData {
    fn clone(&self) -> (r: RoundData)
        ensures
            r@ == self@,
            RoundData::same_round(r, *self),
    {
        let mut hints: Vec<(String, Hint)> = Vec::new();
        let mut i: usize = 0;
        while i < self.hints.len()
            invariant
                i <= self.hints@.len(),
                hints@ == self.hints@.subrange(0, i as int),
            decreases self.hints@.len() - i,
        {
            hints.push((self.hints[i].0.clone(), self.hints[i].1.clone()));
            i = i + 1;
        }
        assert(hints@ == self.hints@);
        let players = self.players.clone();
        assert(players@ == self.players@);
        RoundData {
            players,
            guesser: self.guesser.clone(),
            hints,
            guesses: self.clone_guesses(),
            word: self.word.clone(),
            cur_state: self.cur_state,
        }
    }
}

impl RoundData {
    /// The round's invariant: each player has at most one hint.
    pub open spec fn wf(&self) -> bool {
        users_unique(self.hints@)
    }

    /// True when `a` holds the same contents as `b`.
    pub open spec fn same_round(a: RoundData, b: RoundData) -> bool {
        &&& a.players@ == b.players@
        &&& a.guesser == b.guesser
        &&& a.hints@ == b.hints@
        &&& a.guesses@ == b.guesses@
        &&& a.word == b.word
        &&& a.cur_state == b.cur_state
    }

    /// True when `self` is a round that has just begun.
    pub open spec fn is_fresh(&self, players: Seq<String>, guesser: Seq<char>, word: Seq<char>) -> bool {
        &&& self.players@ == players
        &&& self.guesser@ == guesser
        &&& self.hints@.len() == 0
        &&& self.guesses@.len() == 0
        &&& self.word@ == word
        &&& self.cur_state == RoundState::GivingHints
    }

    /// True when `post` keeps everything of `pre` but the hints.
    pub open spec fn same_but_hints(pre: RoundData, post: RoundData) -> bool {
        &&& post.players == pre.players
        &&& post.guesser == pre.guesser
        &&& post.guesses == pre.guesses
        &&& post.word == pre.word
    }

    /// The effect of a hint of `text` by `user`.
    pub open spec fn hint_step(
        pre: RoundData,
        post: RoundData,
        user: Seq<char>,
        text: Seq<char>,
        r: Result<(), InvalidMove>,
    ) -> bool {
        if user == pre.guesser@ {
            r matches Err(InvalidMove::NotYourTurn { .. }) && post == pre
        } else if pre.cur_state != RoundState::GivingHints {
            r matches Err(InvalidMove::WrongState { .. }) && post == pre
        } else {
            &&& r is Ok
            &&& Self::same_but_hints(pre, post)
            &&& entries(post.hints@) == upserted(entries(pre.hints@), user, text)
            &&& flags_fresh(post.hints@)
            &&& post.cur_state == if pre.players@.len() > 0 && post.hints@.len() == pre.players@.len()
                - 1 {
                RoundState::RemovingDuplicates
            } else {
                RoundState::GivingHints
            }
        }
    }

    /// The effect of a guess of `text` by `user`, where `correct` says
    /// whether the guess matches the word.
    pub open spec fn judged_guess_step(
        pre: RoundData,
        post: RoundData,
        user: Seq<char>,
        text: Seq<char>,
        correct: bool,
        r: Result<(), InvalidMove>,
    ) -> bool {
        if user != pre.guesser@ {
            r matches Err(InvalidMove::NotYourTurn { .. }) && post == pre
        } else if pre.cur_state != RoundState::Guessing {
            r matches Err(InvalidMove::WrongState { .. }) && post == pre
        } else {
            &&& r is Ok
            &&& post.players == pre.players
            &&& post.guesser == pre.guesser
            &&& post.hints == pre.hints
            &&& post.word == pre.word
            &&& post.guesses@.len() == pre.guesses@.len() + 1
            &&& post.guesses@.drop_last() == pre.guesses@
            &&& post.guesses@.last().val@ == text
            &&& post.guesses@.last().is_correct == correct
            &&& !post.guesses@.last().user_check
            &&& post.cur_state == if correct {
                RoundState::RoundFinished
            } else {
                pre.cur_state
            }
        }
    }

    /// The effect of a guess of `text` by `user`: it is right when it equals
    /// the word up to case.
    pub open spec fn guess_step(
        pre: RoundData,
        post: RoundData,
        user: Seq<char>,
        text: Seq<char>,
        r: Result<(), InvalidMove>,
    ) -> bool {
        Self::judged_guess_step(pre, post, user, text, lower_of(text) == lower_of(pre.word@), r)
    }

    /// The effect of `user` declaring the review of duplicates done.
    pub open spec fn reveal_step(pre: RoundData, post: RoundData, user: Seq<char>, r: Result<(), InvalidMove>) -> bool {
        if user == pre.guesser@ {
            r matches Err(InvalidMove::NotYourTurn { .. }) && post == pre
        } else {
            &&& r is Ok
            &&& Self::same_but_hints(pre, post)
            &&& post.hints == pre.hints
            &&& post.cur_state == RoundState::Guessing
        }
    }

    /// The effect of `user` forcing the duplicate flag of the hint of
    /// `hint_user` to `dup`.
    pub open spec fn mark_step(
        pre: RoundData,
        post: RoundData,
        user: Seq<char>,
        hint_user: Seq<char>,
        dup: bool,
        r: Result<(), InvalidMove>,
    ) -> bool {
        if user == pre.guesser@ {
            r matches Err(InvalidMove::NotYourTurn { .. }) && post == pre
        } else if !has_hint(pre.hints@, hint_user) {
            r matches Err(InvalidMove::InvalidUser { .. }) && post == pre
        } else {
            &&& r is Ok
            &&& Self::same_but_hints(pre, post)
            &&& post.cur_state == pre.cur_state
            &&& exists|k: int|
                hint_at(pre.hints@, hint_user, k) && post.hints@ == pre.hints@.update(
                    k,
                    (pre.hints@[k].0, Hint { val: pre.hints@[k].1.val, duplicate: dup }),
                )
        }
    }

    /// The effect of `user` ruling the latest guess right or wrong.
    pub open spec fn judge_step(
        pre: RoundData,
        post: RoundData,
        user: Seq<char>,
        correct: bool,
        r: Result<(), InvalidMove>,
    ) -> bool {
        if user == pre.guesser@ {
            r matches Err(InvalidMove::NotYourTurn { .. }) && post == pre
        } else if pre.cur_state != RoundState::Guessing || pre.guesses@.len() == 0 {
            r matches Err(InvalidMove::WrongState { .. }) && post == pre
        } else {
            let last = pre.guesses@.last();
            &&& r is Ok
            &&& post.players == pre.players
            &&& post.guesser == pre.guesser
            &&& post.hints == pre.hints
            &&& post.word == pre.word
            &&& post.cur_state == pre.cur_state
            &&& post.guesses@ == pre.guesses@.update(
                pre.guesses@.len() - 1,
                Guess { val: last.val, is_correct: correct, user_check: true },
            )
        }
    }

    /// True when the text of hint `h` is withheld from `viewer`.
    pub open spec fn hides_hint(&self, viewer: Seq<char>, h: Hint) -> bool {
        viewer == self.guesser@ && (self.cur_state.rank() < RoundState::Guessing.rank() || h.duplicate)
    }

    /// True when the secret word is withheld from `viewer`.
    pub open spec fn hides_word(&self, viewer: Seq<char>) -> bool {
        viewer == self.guesser@ && self.cur_state != RoundState::RoundFinished
    }

    /// True when `view` is what `viewer` may see of `pre`.
    pub open spec fn filter_view(pre: RoundData, view: RoundData, viewer: Seq<char>) -> bool {
        &&& view.players@ == pre.players@
        &&& view.guesser == pre.guesser
        &&& view.guesses@ == pre.guesses@
        &&& view.cur_state == pre.cur_state
        &&& view.word@ == if pre.hides_word(viewer) {
            Seq::<char>::empty()
        } else {
            pre.word@
        }
        &&& view.hints@.len() == pre.hints@.len()
        &&& forall|i: int|
            0 <= i < pre.hints@.len() ==> {
                let h = #[trigger] pre.hints@[i];
                &&& view.hints@[i].0 == h.0
                &&& view.hints@[i].1.duplicate == h.1.duplicate
                &&& view.hints@[i].1.val@ == if pre.hides_hint(viewer, h.1) {
                    Seq::<char>::empty()
                } else {
                    h.1.val@
                }
            }
    }

    /// Starts a round in which `guesser` must find `word`.
    pub fn new(players: Vec<String>, guesser: String, word: String) -> (r: RoundData)
        ensures
            r.wf(),
            r.is_fresh(players@, guesser@, word@),
    {
        RoundData {
            players,
            guesser,
            hints: Vec::new(),
            guesses: Vec::new(),
            word,
            cur_state: RoundState::GivingHints,
        }
    }

    /// Records `hint` as the hint of `user`, replacing an earlier one, and
    /// recomputes every hint's duplicate flag.
    pub fn give_hint(&mut self, user: &String, hint: String) -> (r: Result<(), InvalidMove>)
        requires
            old(self).wf(),
        ensures
            final(self).wf(),
            Self::hint_step(*old(self), *final(self), user@, hint@, r),
    {
        if self.guesser == *user {
            return Err(InvalidMove::NotYourTurn { msg: String::from_str("The guesser cannot give hints") });
        }
        if self.cur_state != RoundState::GivingHints {
            let mut msg = String::from_str("Can't give hint during ");
            msg.append(self.cur_state.name());
            return Err(InvalidMove::WrongState { msg });
        }
        let ghost pre = *self;
        let entry = (user.clone(), Hint { val: hint, duplicate: false });
        match find_hint(&self.hints, user.as_str()) {
            Some(p) => {
                self.hints.set(p, entry);
                proof {
                    let es = entries(pre.hints@);
                    assert(es[p as int].0 == user@);
                    let c = choose|k: int| 0 <= k < es.len() && es[k].0 == user@;
                    assert(c == p);
                    assert(entries(self.hints@) == es.update(p as int, (user@, hint@)));
                    assert forall|a: int, b: int|
                        0 <= a < self.hints@.len() && 0 <= b < self.hints@.len() && a != b implies #[trigger] self.hints@[a].0@
                        != #[trigger] self.hints@[b].0@ by {
                        assert(pre.hints@[a].0@ != pre.hints@[b].0@);
                    }
                }
            },
            None => {
                self.hints.push(entry);
                proof {
                    let es = entries(pre.hints@);
                    assert forall|k: int| 0 <= k < es.len() implies es[k].0 != user@ by {
                        assert(!hint_at(pre.hints@, user@, k));
                    }
                    assert(entries(self.hints@) == es.push((user@, hint@)));
                    assert forall|a: int, b: int|
                        0 <= a < self.hints@.len() && 0 <= b < self.hints@.len() && a != b implies #[trigger] self.hints@[a].0@
                        != #[trigger] self.hints@[b].0@ by {
                        if a < pre.hints@.len() && b < pre.hints@.len() {
                            assert(pre.hints@[a].0@ != pre.hints@[b].0@);
                        } else if a < pre.hints@.len() {
                            assert(!hint_at(pre.hints@, user@, a));
                        } else {
                            assert(!hint_at(pre.hints@, user@, b));
                        }
                    }
                }
            },
        }
        let ghost upd = self.hints@;
        assert(users_unique(upd));
        let n = self.hints.len();
        let mut folded: Vec<String> = Vec::new();
        let mut i: usize = 0;
        while i < n
            invariant
                i <= n,
                n == self.hints@.len(),
                self.hints@ == upd,
                folded@.len() == i,
                texts(folded@) == folded_texts(upd).subrange(0, i as int),
            decreases n - i,
        {
            let f = lowercase(self.hints[i].1.val.as_str());
            let ghost before = folded@;
            folded.push(f);
            assert(f@ == folded_texts(upd)[i as int]);
            assert forall|k: int| 0 <= k < i implies #[trigger] texts(folded@)[k] == folded_texts(upd)[k] by {
                assert(folded@[k] == before[k]);
                assert(texts(before)[k] == folded_texts(upd).subrange(0, i as int)[k]);
            }
            assert(texts(folded@) =~= folded_texts(upd).subrange(0, i + 1));
            i = i + 1;
        }
        assert(texts(folded@) == folded_texts(upd));
        let flags = duplicate_flags(&folded);
        let mut fresh: Vec<(String, Hint)> = Vec::new();
        let mut j: usize = 0;
        while j < n
            invariant
                j <= n,
                n == self.hints@.len(),
                self.hints@ == upd,
                flags@.len() == n,
                fresh@.len() == j,
                forall|k: int|
                    0 <= k < j ==> #[trigger] fresh@[k] == (upd[k].0, Hint {
                        val: upd[k].1.val,
                        duplicate: flags@[k],
                    }),
            decreases n - j,
        {
            let e = (self.hints[j].0.clone(), Hint { val: self.hints[j].1.val.clone(), duplicate: flags[j] });
            fresh.push(e);
            j = j + 1;
        }
        proof {
            assert(entries(fresh@) == entries(upd));
            assert(folded_texts(fresh@) == folded_texts(upd));
            assert forall|k: int| 0 <= k < fresh@.len() implies #[trigger] fresh@[k].1.duplicate == (
            count_of(folded_texts(fresh@), lower_of(fresh@[k].1.val@)) > 1) by {
                assert(folded@[k]@ == texts(folded@)[k]);
            }
            assert forall|a: int, b: int|
                0 <= a < fresh@.len() && 0 <= b < fresh@.len() && a != b implies #[trigger] fresh@[a].0@
                != #[trigger] fresh@[b].0@ by {
                assert(upd[a].0@ != upd[b].0@);
            }
        }
        self.hints = fresh;
        if self.players.len() > 0 && self.hints.len() == self.players.len() - 1 {
            self.cur_state = RoundState::RemovingDuplicates;
        }
        Ok(())
    }

    /// The guesser guesses `val`; a guess equal to the word up to case ends
    /// the round.
    pub fn guess(&mut self, user: &str, val: String) -> (r: Result<(), InvalidMove>)
        requires
            old(self).wf(),
        ensures
            final(self).wf(),
            Self::guess_step(*old(self), *final(self), user@, val@, r),
    {
        let folded_guess = lowercase(val.as_str());
        let folded_word = lowercase(self.word.as_str());
        self.guess_folded(user, val, &folded_guess, &folded_word)
    }

    /// The guesser guesses `val`, whose lower-case form is `folded_val`,
    /// against the word's lower-case form `folded_word`.
    pub fn guess_folded(&mut self, user: &str, val: String, folded_val: &String, folded_word: &String) -> (r:
        Result<(), InvalidMove>)
        requires
            old(self).wf(),
        ensures
            final(self).wf(),
            Self::judged_guess_step(*old(self), *final(self), user@, val@, folded_val@ == folded_word@, r),
    {
        if !same_user(&self.guesser, user) {
            return Err(InvalidMove::NotYourTurn { msg: String::from_str("Only the guesser can guess") });
        }
        if self.cur_state != RoundState::Guessing {
            let mut msg = String::from_str("Can't guess during ");
            msg.append(self.cur_state.name());
            return Err(InvalidMove::WrongState { msg });
        }
        let is_correct = *folded_val == *folded_word;
        let ghost pre = self.guesses@;
        self.guesses.push(Guess { val, is_correct, user_check: false });
        assert(self.guesses@.drop_last() == pre);
        if is_correct {
            self.cur_state = RoundState::RoundFinished;
        }
        Ok(())
    }

    /// A player other than the guesser ends the review of duplicates; the
    /// round moves to guessing whatever its phase.
    pub fn done_removing_dupes(&mut self, user: &str) -> (r: Result<(), InvalidMove>)
        requires
            old(self).wf(),
        ensures
            final(self).wf(),
            Self::reveal_step(*old(self), *final(self), user@, r),
    {
        if same_user(&self.guesser, user) {
            return Err(
                InvalidMove::NotYourTurn {
                    msg: String::from_str("The guesser cannot say all duplicates have been removed"),
                },
            );
        }
        self.cur_state = RoundState::Guessing;
        Ok(())
    }

    /// Sets the duplicate flag of the hint of `hint_user` to `dup`.
    fn mark_hint(&mut self, user: &str, hint_user: &str, dup: bool) -> (r: Result<(), InvalidMove>)
        requires
            old(self).wf(),
        ensures
            final(self).wf(),
            Self::mark_step(*old(self), *final(self), user@, hint_user@, dup, r),
    {
        if same_user(&self.guesser, user) {
            let msg = if dup {
                String::from_str("Cannot set duplicate when you're the guesser")
            } else {
                String::from_str("Cannot set unique when you're the guesser")
            };
            return Err(InvalidMove::NotYourTurn { msg });
        }
        match find_hint(&self.hints, hint_user) {
            Some(k) => {
                let ghost pre = self.hints@;
                let e = (self.hints[k].0.clone(), Hint { val: self.hints[k].1.val.clone(), duplicate: dup });
                self.hints.set(k, e);
                assert(hint_at(pre, hint_user@, k as int));
                assert forall|a: int, b: int|
                    0 <= a < self.hints@.len() && 0 <= b < self.hints@.len() && a != b implies #[trigger] self.hints@[a].0@
                    != #[trigger] self.hints@[b].0@ by {
                    assert(pre[a].0@ != pre[b].0@);
                }
                Ok(())
            },
            None => {
                let mut msg = String::from_str("User ");
                msg.append(hint_user);
                msg.append(" does not exist");
                Err(InvalidMove::InvalidUser { msg })
            },
        }
    }

    /// Marks the hint of `hint_user` as a duplicate.
    pub fn set_duplicate(&mut self, user: &str, hint_user: &str) -> (r: Result<(), InvalidMove>)
        requires
            old(self).wf(),
        ensures
            final(self).wf(),
            Self::mark_step(*old(self), *final(self), user@, hint_user@, true, r),
    {
        self.mark_hint(user, hint_user, true)
    }

    /// Marks the hint of `hint_user` as unique.
    pub fn set_unique(&mut self, user: &str, hint_user: &str) -> (r: Result<(), InvalidMove>)
        requires
            old(self).wf(),
        ensures
            final(self).wf(),
            Self::mark_step(*old(self), *final(self), user@, hint_user@, false, r),
    {
        self.mark_hint(user, hint_user, false)
    }

    /// A player other than the guesser rules the latest guess right or wrong.
    pub fn set_guess_correctness(&mut self, user: &str, is_correct: bool) -> (r: Result<(), InvalidMove>)
        requires
            old(self).wf(),
        ensures
            final(self).wf(),
            Self::judge_step(*old(self), *final(self), user@, is_correct, r),
    {
        if same_user(&self.guesser, user) {
            return Err(InvalidMove::NotYourTurn { msg: String::from_str("Cannot set Guesses when you're the guesser") });
        } else if self.cur_state != RoundState::Guessing {
            return Err(
                InvalidMove::WrongState {
                    msg: String::from_str("Must be in guessing state to set guesses as correct/incorrect"),
                },
            );
        }
        let n = self.guesses.len();
        if n == 0 {
            return Err(InvalidMove::WrongState { msg: String::from_str("No guess has been made yet") });
        }
        let g = Guess { val: self.guesses[n - 1].val.clone(), is_correct, user_check: true };
        self.guesses.set(n - 1, g);
        Ok(())
    }

    /// What `user` may see of the round: a new value, the round itself is
    /// left as it is.
    pub fn filter(&self, user: &str) -> (r: RoundData)
        ensures
            Self::filter_view(*self, r, user@),
            r.wf() == self.wf(),
    {
        let is_guesser = same_user(&self.guesser, user);
        let early = self.cur_state.before_guessing();
        let mut hints: Vec<(String, Hint)> = Vec::new();
        let mut i: usize = 0;
        while i < self.hints.len()
            invariant
                i <= self.hints@.len(),
                is_guesser == (user@ == self.guesser@),
                early == (self.cur_state.rank() < RoundState::Guessing.rank()),
                hints@.len() == i,
                forall|k: int|
                    0 <= k < i ==> {
                        let h = #[trigger] self.hints@[k];
                        &&& hints@[k].0 == h.0
                        &&& hints@[k].1.duplicate == h.1.duplicate
                        &&& hints@[k].1.val@ == if self.hides_hint(user@, h.1) {
                            Seq::<char>::empty()
                        } else {
                            h.1.val@
                        }
                    },
            decreases self.hints@.len() - i,
        {
            let dup = self.hints[i].1.duplicate;
            let val = if is_guesser && (early || dup) {
                String::new()
            } else {
                self.hints[i].1.val.clone()
            };
            hints.push((self.hints[i].0.clone(), Hint { val, duplicate: dup }));
            i = i + 1;
        }
        proof {
            if self.wf() {
                assert forall|a: int, b: int|
                    0 <= a < hints@.len() && 0 <= b < hints@.len() && a != b implies #[trigger] hints@[a].0@
                    != #[trigger] hints@[b].0@ by {
                    assert(self.hints@[a].0@ != self.hints@[b].0@);
                }
            } else {
                let (a, b) = choose|a: int, b: int|
                    0 <= a < self.hints@.len() && 0 <= b < self.hints@.len() && a != b && #[trigger] self.hints@[a].0@
                    == #[trigger] self.hints@[b].0@;
                assert(hints@[a].0@ == self.hints@[a].0@);
                assert(hints@[b].0@ == self.hints@[b].0@);
            }
        }
        let word = if is_guesser && self.cur_state != RoundState::RoundFinished {
            String::new()
        } else {
            self.word.clone()
        };
        let players = self.players.clone();
        assert(players@ == self.players@);
        let guesses = self.clone_guesses();
        RoundData { players, guesser: self.guesser.clone(), hints, guesses, word, cur_state: self.cur_state }
    }

    /// A copy of the guesses.
    fn clone_guesses(&self) -> (r: Vec<Guess>)
        ensures
            r@ == self.guesses@,
    {
        let mut guesses: Vec<Guess> = Vec::new();
        let mut j: usize = 0;
        while j < self.guesses.len()
            invariant
                j <= self.guesses@.len(),
                guesses@ == self.guesses@.subrange(0, j as int),
            decreases self.guesses@.len() - j,
        {
            guesses.push(self.guesses[j].clone());
            j = j + 1;
        }
        assert(guesses@ == self.guesses@);
        guesses
    }
}

} // verus!
