use vstd::prelude::*;
use vstd::string::StringExecFns;

use crate::games::just_one::{GameData, InvalidMove, JustOneMove};
use crate::games::GameType;

verus! {

/// What a member asks of a room.
pub enum LobbyInMsg {
    Join { user_id: String },
    Leave,
    Start,
    GetUsers,
    GetGameData,
    /// A game move: the decoded move, or why it could not be decoded.
    GameMove { action: Result<JustOneMove, String> },
}

/// A request together with the member who sent it.
pub struct InMsg {
    pub uid: String,
    pub cmd: LobbyInMsg,
}

/// Whether a room is gathering players or playing.
#[derive(Debug, Clone, Copy, PartialEq, Eq, Structural)]
pub enum LobbyState {
    InLobby,
    InGame,
}

/// What a room tells a member.
pub enum LobbyOutMsg {
    Error { msg: String },
    Members(Vec<String>),
    SelectedGame(GameType),
    GameState(GameData),
}

/// A message for one member.
pub struct OutMsg {
    pub to: String,
    pub msg: LobbyOutMsg,
}

/// A room: the words its games draw from and the game being played, if any.
pub struct Lobby {
    pub id: String,
    pub game: GameType,
    pub words: Vec<String>,
    pub playing: Option<GameData>,
}

/// True when `out` is a single error for `uid`.
pub open spec fn error_to(out: Seq<OutMsg>, uid: Seq<char>) -> bool {
    &&& out.len() == 1
    &&& out[0].to@ == uid
    &&& out[0].msg is Error
}

/// True when `m` lists exactly `ids`.
pub open spec fn lists_members(m: LobbyOutMsg, ids: Seq<String>) -> bool {
    m matches LobbyOutMsg::Members(v) && v@ == ids
}

/// True when `out` sends each of `members`, in order, the member list.
pub open spec fn members_sent(out: Seq<OutMsg>, members: Seq<String>) -> bool {
    &&& out.len() == members.len()
    &&& forall|i: int|
        0 <= i < members.len() ==> (#[trigger] out[i]).to@ == members[i]@ && lists_members(out[i].msg, members)
}

/// True when `out` sends each of `members`, in order, their own view of `g`.
pub open spec fn states_sent(out: Seq<OutMsg>, g: GameData, members: Seq<String>) -> bool {
    &&& out.len() == members.len()
    &&& forall|i: int|
        0 <= i < members.len() ==> {
            &&& (#[trigger] out[i]).to@ == members[i]@
            &&& out[i].msg matches LobbyOutMsg::GameState(v) && GameData::filter_view(g, v, members[i]@)
        }
}

/// Sends every member the member list.
fn broadcast_members(members: &Vec<String>) -> (out: Vec<OutMsg>)
    ensures
        members_sent(out@, members@),
{
    let mut out: Vec<OutMsg> = Vec::new();
    let mut i: usize = 0;
    while i < members.len()
        invariant
            i <= members@.len(),
            out@.len() == i,
            forall|k: int|
                0 <= k < i ==> (#[trigger] out@[k]).to@ == members@[k]@ && lists_members(out@[k].msg, members@),
        decreases members@.len() - i,
    {
        let list = members.clone();
        assert(list@ == members@);
        out.push(OutMsg { to: members[i].clone(), msg: LobbyOutMsg::Members(list) });
        i = i + 1;
    }
    out
}

/// Sends every member their own view of `g`.
fn broadcast_state(g: &GameData, members: &Vec<String>) -> (out: Vec<OutMsg>)
    ensures
        states_sent(out@, *g, members@),
{
    let mut out: Vec<OutMsg> = Vec::new();
    let mut i: usize = 0;
    while i < members.len()
        invariant
            i <= members@.len(),
            out@.len() == i,
            forall|k: int|
                0 <= k < i ==> {
                    &&& (#[trigger] out@[k]).to@ == members@[k]@
                    &&& out@[k].msg matches LobbyOutMsg::GameState(v) && GameData::filter_view(*g, v, members@[k]@)
                },
        decreases members@.len() - i,
    {
        let view = g.filter(members[i].as_str());
        out.push(OutMsg { to: members[i].clone(), msg: LobbyOutMsg::GameState(view) });
        i = i + 1;
    }
    out
}

/// A single error for `uid`.
fn reply_error(uid: &String, msg: String) -> (out: Vec<OutMsg>)
    ensures
        error_to(out@, uid@),
        out@[0].msg matches LobbyOutMsg::Error { msg: m } && m@ == msg@,
{
    let mut out: Vec<OutMsg> = Vec::new();
    out.push(OutMsg { to: uid.clone(), msg: LobbyOutMsg::Error { msg } });
    out
}

impl Lobby {
    /// The room's invariant: there are words to play with, and a game being
    /// played is well formed.
    pub open spec fn wf(&self) -> bool {
        &&& self.words@.len() > 0
        &&& self.playing matches Some(g) ==> g.wf()
    }

    /// True when `post` keeps everything of `pre` but the game.
    pub open spec fn same_room(pre: Lobby, post: Lobby) -> bool {
        &&& post.id == pre.id
        &&& post.game == pre.game
        &&& post.words == pre.words
    }

    /// The effect of `cmd` from `uid`, with `members` connected: the new
    /// room `post` and the messages `out`.
    pub open spec fn step(
        pre: Lobby,
        post: Lobby,
        uid: Seq<char>,
        cmd: LobbyInMsg,
        members: Seq<String>,
        out: Seq<OutMsg>,
    ) -> bool {
        match cmd {
            LobbyInMsg::Join { user_id } => {
                &&& post == pre
                &&& out.len() == members.len() + 1
                &&& members_sent(out.drop_last(), members)
                &&& out.last().to@ == user_id@
                &&& out.last().msg == LobbyOutMsg::SelectedGame(pre.game)
            },
            LobbyInMsg::Leave => post == pre && out.len() == 0,
            LobbyInMsg::GetUsers => {
                &&& post == pre
                &&& out.len() == 1
                &&& out[0].to@ == uid
                &&& lists_members(out[0].msg, members)
            },
            LobbyInMsg::GetGameData => {
                &&& post == pre
                &&& out.len() == 1
                &&& out[0].to@ == uid
                &&& out[0].msg == LobbyOutMsg::SelectedGame(pre.game)
            },
            LobbyInMsg::Start => {
                if pre.playing is Some || members.len() == 0 {
                    post == pre && error_to(out, uid)
                } else {
                    &&& Self::same_room(pre, post)
                    &&& post.playing matches Some(g) && GameData::is_new_game(g, members, pre.words@)
                        && states_sent(out, g, members)
                }
            },
            LobbyInMsg::GameMove { action } => {
                match pre.playing {
                    None => post == pre && error_to(out, uid),
                    Some(g) => {
                        if g.round == usize::MAX {
                            post == pre && error_to(out, uid)
                        } else {
                            &&& Self::same_room(pre, post)
                            &&& post.playing matches Some(g2) && {
                                ||| GameData::move_step(g, g2, uid, action, Ok(())) && states_sent(out, g2, members)
                                ||| (exists|e: InvalidMove| GameData::move_step(g, g2, uid, action, Err(e)))
                                    && error_to(out, uid)
                            }
                        }
                    },
                }
            },
        }
    }

    /// A room with no game yet.
    pub fn new(id: String, words: Vec<String>) -> (r: Lobby)
        requires
            words@.len() > 0,
        ensures
            r.wf(),
            r.id == id,
            r.game == GameType::JustOne,
            r.words == words,
            r.playing is None,
    {
        Lobby { id, game: GameType::JustOne, words, playing: None }
    }

    /// Whether the room is playing.
    pub fn state(&self) -> (r: LobbyState)
        ensures
            r == if self.playing is Some {
                LobbyState::InGame
            } else {
                LobbyState::InLobby
            },
    {
        if self.playing.is_some() {
            LobbyState::InGame
        } else {
            LobbyState::InLobby
        }
    }

    /// Handles one request; `members` are the members connected now, to whom
    /// broadcasts go. Returns the messages to deliver, in order.
    pub fn handle_msg(&mut self, msg: InMsg, members: &Vec<String>) -> (out: Vec<OutMsg>)
        requires
            old(self).wf(),
        ensures
            final(self).wf(),
            Self::step(*old(self), *final(self), msg.uid@, msg.cmd, members@, out@),
    {
        let uid = msg.uid;
        match msg.cmd {
            LobbyInMsg::Join { user_id } => {
                let mut out = broadcast_members(members);
                let ghost sent = out@;
                out.push(OutMsg { to: user_id, msg: LobbyOutMsg::SelectedGame(self.game) });
                assert(out@.drop_last() == sent);
                out
            },
            LobbyInMsg::Leave => Vec::new(),
            LobbyInMsg::GetUsers => {
                let list = members.clone();
                assert(list@ == members@);
                let mut out: Vec<OutMsg> = Vec::new();
                out.push(OutMsg { to: uid, msg: LobbyOutMsg::Members(list) });
                out
            },
            LobbyInMsg::GetGameData => {
                let mut out: Vec<OutMsg> = Vec::new();
                out.push(OutMsg { to: uid, msg: LobbyOutMsg::SelectedGame(self.game) });
                out
            },
            LobbyInMsg::Start => {
                if self.playing.is_some() {
                    return reply_error(&uid, String::from_str("Invalid Msg. Cannot start a game during an existing game"));
                }
                if members.len() == 0 {
                    return reply_error(&uid, String::from_str("Invalid Msg. Cannot start a game without players"));
                }
                let players = members.clone();
                assert(players@ == members@);
                let words = self.words.clone();
                assert(words@ == self.words@);
                let g = GameData::new(players, words);
                let out = broadcast_state(&g, members);
                self.playing = Some(g);
                out
            },
            LobbyInMsg::GameMove { action } => {
                match self.playing.take() {
                    None => {
                        reply_error(&uid, String::from_str("Invalid Msg. Cannot make move during the lobby"))
                    },
                    Some(mut g) => {
                        if g.round == usize::MAX {
                            self.playing = Some(g);
                            return reply_error(&uid, String::from_str("Invalid Move: no more rounds can be started"));
                        }
                        let r = g.make_move(&uid, action);
                        let out = match r {
                            Ok(()) => broadcast_state(&g, members),
                            Err(e) => {
                                let mut text = String::from_str("Invalid Move: ");
                                text.append(e.message().as_str());
                                reply_error(&uid, text)
                            },
                        };
                        self.playing = Some(g);
                        out
                    },
                }
            },
        }
    }
}

} // verus!
