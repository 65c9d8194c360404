use vstd::prelude::*;
use vstd::pervasive::VecAdditionalExecFns;

verus! {

/// Why a connection could not join or leave a room.
#[derive(Debug, Clone, Copy, PartialEq, Eq, Structural)]
pub enum LobbyError {
    LobbyDoesNotExist,
    UserAlreadyConnected,
    UserDoesNotExist,
}

/// The map that a sequence of keyed entries stands for.
pub open spec fn keyed<V>(s: Seq<(Seq<char>, V)>) -> Map<Seq<char>, V> {
    Map::new(
        |k: Seq<char>| exists|j: int| 0 <= j < s.len() && s[j].0 == k,
        |k: Seq<char>| s[choose|j: int| 0 <= j < s.len() && s[j].0 == k].1,
    )
}

/// True when no key occurs twice in `s`.
pub open spec fn keys_unique<V>(s: Seq<(Seq<char>, V)>) -> bool {
    forall|i: int, j: int| 0 <= i < s.len() && 0 <= j < s.len() && #[trigger] s[i].0 == #[trigger] s[j].0 ==> i == j
}

proof fn lemma_keyed_lookup<V>(s: Seq<(Seq<char>, V)>, j: int)
    requires
        keys_unique(s),
        0 <= j < s.len(),
    ensures
        keyed(s).contains_key(s[j].0),
        keyed(s)[s[j].0] == s[j].1,
{
    let k = s[j].0;
    assert(0 <= j < s.len() && s[j].0 == k);
    let c = choose|i: int| 0 <= i < s.len() && s[i].0 == k;
    assert(c == j);
}

proof fn lemma_keyed_update<V>(s: Seq<(Seq<char>, V)>, j: int, v: V)
    requires
        keys_unique(s),
        0 <= j < s.len(),
    ensures
        keys_unique(s.update(j, (s[j].0, v))),
        keyed(s.update(j, (s[j].0, v))) == keyed(s).insert(s[j].0, v),
{
    let t = s.update(j, (s[j].0, v));
    let k = s[j].0;
    assert forall|a: int, b: int| 0 <= a < t.len() && 0 <= b < t.len() && #[trigger] t[a].0 == #[trigger] t[b].0 implies a == b by {
        assert(s[a].0 == s[b].0);
    }
    assert forall|x: Seq<char>| #[trigger] keyed(t).contains_key(x) == keyed(s).insert(k, v).contains_key(x) by {
        if keyed(s).contains_key(x) {
            let i = choose|i: int| 0 <= i < s.len() && s[i].0 == x;
            assert(t[i].0 == x);
        }
        if keyed(t).contains_key(x) {
            let i = choose|i: int| 0 <= i < t.len() && t[i].0 == x;
            assert(s[i].0 == x);
        }
    }
    assert forall|x: Seq<char>| #[trigger] keyed(t).contains_key(x) implies keyed(t)[x] == keyed(s).insert(k, v)[x] by {
        let i = choose|i: int| 0 <= i < t.len() && t[i].0 == x;
        lemma_keyed_lookup(t, i);
        if i != j {
            lemma_keyed_lookup(s, i);
        }
    }
    assert(keyed(t) =~= keyed(s).insert(k, v));
}

proof fn lemma_keyed_push<V>(s: Seq<(Seq<char>, V)>, k: Seq<char>, v: V)
    requires
        keys_unique(s),
        !keyed(s).contains_key(k),
    ensures
        keys_unique(s.push((k, v))),
        keyed(s.push((k, v))) == keyed(s).insert(k, v),
{
    let t = s.push((k, v));
    assert forall|a: int, b: int| 0 <= a < t.len() && 0 <= b < t.len() && #[trigger] t[a].0 == #[trigger] t[b].0 implies a == b by {
        if a < s.len() && b == s.len() {
            assert(s[a].0 == k);
        } else if b < s.len() && a == s.len() {
            assert(s[b].0 == k);
        } else if a < s.len() && b < s.len() {
            assert(s[a].0 == s[b].0);
        }
    }
    assert forall|x: Seq<char>| #[trigger] keyed(t).contains_key(x) == keyed(s).insert(k, v).contains_key(x) by {
        if keyed(s).contains_key(x) {
            let i = choose|i: int| 0 <= i < s.len() && s[i].0 == x;
            assert(t[i].0 == x);
        }
        if x == k {
            assert(t[s.len() as int].0 == x);
        }
        if keyed(t).contains_key(x) && x != k {
            let i = choose|i: int| 0 <= i < t.len() && t[i].0 == x;
            assert(s[i].0 == x);
        }
    }
    assert forall|x: Seq<char>| #[trigger] keyed(t).contains_key(x) implies keyed(t)[x] == keyed(s).insert(k, v)[x] by {
        let i = choose|i: int| 0 <= i < t.len() && t[i].0 == x;
        lemma_keyed_lookup(t, i);
        if i < s.len() {
            lemma_keyed_lookup(s, i);
        }
    }
    assert(keyed(t) =~= keyed(s).insert(k, v));
}

proof fn lemma_keyed_remove<V>(s: Seq<(Seq<char>, V)>, j: int)
    requires
        keys_unique(s),
        0 <= j < s.len(),
    ensures
        keys_unique(s.remove(j)),
        keyed(s.remove(j)) == keyed(s).remove(s[j].0),
{
    let t = s.remove(j);
    let k = s[j].0;
    assert forall|a: int, b: int| 0 <= a < t.len() && 0 <= b < t.len() && #[trigger] t[a].0 == #[trigger] t[b].0 implies a == b by {
        let a2 = if a < j { a } else { a + 1 };
        let b2 = if b < j { b } else { b + 1 };
        assert(s[a2].0 == s[b2].0);
    }
    assert forall|x: Seq<char>| #[trigger] keyed(t).contains_key(x) == keyed(s).remove(k).contains_key(x) by {
        if keyed(s).contains_key(x) && x != k {
            let i = choose|i: int| 0 <= i < s.len() && s[i].0 == x;
            assert(i != j);
            let i2 = if i < j { i } else { i - 1 };
            assert(t[i2].0 == x);
        }
        if keyed(t).contains_key(x) {
            let i = choose|i: int| 0 <= i < t.len() && t[i].0 == x;
            let i2 = if i < j { i } else { i + 1 };
            assert(s[i2].0 == x);
            assert(i2 != j);
        }
    }
    assert forall|x: Seq<char>| #[trigger] keyed(t).contains_key(x) implies keyed(t)[x] == keyed(s).remove(k)[x] by {
        let i = choose|i: int| 0 <= i < t.len() && t[i].0 == x;
        let i2 = if i < j { i } else { i + 1 };
        lemma_keyed_lookup(t, i);
        lemma_keyed_lookup(s, i2);
    }
    assert(keyed(t) =~= keyed(s).remove(k));
}

/// A member of a room and whether a connection of theirs is open.
pub struct User {
    pub id: String,
    pub is_conn: bool,
}

/// A room's identifier and its members, connected or not.
pub struct LobbyData {
    pub id: String,
    pub users: Vec<User>,
}

/// The members of a room as keyed entries.
pub open spec fn member_entries(us: Seq<User>) -> Seq<(Seq<char>, bool)> {
    us.map_values(|u: User| (u.id@, u.is_conn))
}

/// The rooms as keyed entries.
pub open spec fn lobby_entries(ls: Seq<LobbyData>) -> Seq<(Seq<char>, Map<Seq<char>, bool>)> {
    ls.map_values(|l: LobbyData| (l.id@, keyed(member_entries(l.users@))))
}

/// True when some member of `us` is connected.
pub open spec fn any_connected(us: Map<Seq<char>, bool>) -> bool {
    exists|k: Seq<char>| us.contains_key(k) && us[k]
}

/// The rooms after `create_lobby(id)`: a new room with no members, unless
/// it already exists.
pub open spec fn create_spec(m: Map<Seq<char>, Map<Seq<char>, bool>>, id: Seq<char>) -> Map<
    Seq<char>,
    Map<Seq<char>, bool>,
> {
    if m.contains_key(id) {
        m
    } else {
        m.insert(id, Map::empty())
    }
}

/// The outcome of admitting `u` into room `l`.
pub open spec fn admit_spec(m: Map<Seq<char>, Map<Seq<char>, bool>>, l: Seq<char>, u: Seq<char>) -> Result<
    Map<Seq<char>, Map<Seq<char>, bool>>,
    LobbyError,
> {
    if !m.contains_key(l) {
        Err(LobbyError::LobbyDoesNotExist)
    } else if m[l].contains_key(u) && m[l][u] {
        Err(LobbyError::UserAlreadyConnected)
    } else {
        Ok(m.insert(l, m[l].insert(u, true)))
    }
}

/// The outcome of disconnecting `u` from room `l`: the member is kept as
/// disconnected, and a room left with no connected member is removed.
pub open spec fn disconnect_spec(m: Map<Seq<char>, Map<Seq<char>, bool>>, l: Seq<char>, u: Seq<char>) -> Result<
    Map<Seq<char>, Map<Seq<char>, bool>>,
    LobbyError,
> {
    if !m.contains_key(l) {
        Err(LobbyError::LobbyDoesNotExist)
    } else if !m[l].contains_key(u) {
        Err(LobbyError::UserDoesNotExist)
    } else {
        let us = m[l].insert(u, false);
        if any_connected(us) {
            Ok(m.insert(l, us))
        } else {
            Ok(m.remove(l))
        }
    }
}

/// Admitting a user into a room that was never created fails.
pub proof fn lemma_admit_needs_lobby(m: Map<Seq<char>, Map<Seq<char>, bool>>, l: Seq<char>, u: Seq<char>)
    requires
        !m.contains_key(l),
    ensures
        admit_spec(m, l, u) == Err::<Map<Seq<char>, Map<Seq<char>, bool>>, LobbyError>(
            LobbyError::LobbyDoesNotExist,
        ),
{
}

/// Once a user has been admitted, admitting them again fails until they
/// disconnect.
pub proof fn lemma_admit_twice(m: Map<Seq<char>, Map<Seq<char>, bool>>, l: Seq<char>, u: Seq<char>)
    requires
        admit_spec(m, l, u) is Ok,
    ensures
        admit_spec(admit_spec(m, l, u)->Ok_0, l, u) == Err::<Map<Seq<char>, Map<Seq<char>, bool>>, LobbyError>(
            LobbyError::UserAlreadyConnected,
        ),
{
}

/// When the last connected member of a room disconnects, the room is gone:
/// nobody can be admitted to it until it is created again, and then anyone
/// can.
pub proof fn lemma_last_disconnect_closes(
    m: Map<Seq<char>, Map<Seq<char>, bool>>,
    l: Seq<char>,
    u: Seq<char>,
    v: Seq<char>,
)
    requires
        m.contains_key(l),
        m[l].contains_key(u),
        forall|k: Seq<char>| k != u && #[trigger] m[l].contains_key(k) ==> !m[l][k],
    ensures
        disconnect_spec(m, l, u) is Ok,
        !(disconnect_spec(m, l, u)->Ok_0).contains_key(l),
        admit_spec(disconnect_spec(m, l, u)->Ok_0, l, v) == Err::<Map<Seq<char>, Map<Seq<char>, bool>>, LobbyError>(
            LobbyError::LobbyDoesNotExist,
        ),
        admit_spec(create_spec(disconnect_spec(m, l, u)->Ok_0, l), l, v) is Ok,
{
    let us = m[l].insert(u, false);
    assert(!any_connected(us));
}

/// Index of the member `id` in `us`, if there is one.
fn find_user(us: &Vec<User>, id: &String) -> (r: Option<usize>)
    ensures
        r matches Some(j) ==> j < us@.len() && us@[j as int].id@ == id@,
        r is None ==> !keyed(member_entries(us@)).contains_key(id@),
{
    let mut j: usize = 0;
    while j < us.len()
        invariant
            j <= us@.len(),
            forall|i: int| 0 <= i < j ==> us@[i].id@ != id@,
        decreases us@.len() - j,
    {
        if us[j].id == *id {
            return Some(j);
        }
        j = j + 1;
    }
    proof {
        if keyed(member_entries(us@)).contains_key(id@) {
            let i = choose|i: int| 0 <= i < member_entries(us@).len() && member_entries(us@)[i].0 == id@;
            assert(us@[i].id@ == id@);
        }
    }
    None
}

/// True when some member in `us` is connected.
fn has_connected(us: &Vec<User>) -> (r: bool)
    requires
        keys_unique(member_entries(us@)),
    ensures
        r == any_connected(keyed(member_entries(us@))),
{
    let mut j: usize = 0;
    while j < us.len()
        invariant
            j <= us@.len(),
            keys_unique(member_entries(us@)),
            forall|i: int| 0 <= i < j ==> !us@[i].is_conn,
        decreases us@.len() - j,
    {
        if us[j].is_conn {
            proof {
                lemma_keyed_lookup(member_entries(us@), j as int);
                assert(member_entries(us@)[j as int].0 == us@[j as int].id@);
            }
            return true;
        }
        j = j + 1;
    }
    proof {
        let mv = keyed(member_entries(us@));
        if any_connected(mv) {
            let k = choose|k: Seq<char>| mv.contains_key(k) && mv[k];
            let i = choose|i: int| 0 <= i < member_entries(us@).len() && member_entries(us@)[i].0 == k;
            lemma_keyed_lookup(member_entries(us@), i);
        }
    }
    false
}

/// The directory of rooms and of who is in each.
pub struct LobbyManager {
    pub lobbies: Vec<LobbyData>,
}

impl View for LobbyManager {
    type V = Map<Seq<char>, Map<Seq<char>, bool>>;

    /// Each room's id mapped to its members, each with whether they are
    /// connected.
    open spec fn view(&self) -> Map<Seq<char>, Map<Seq<char>, bool>> {
        keyed(lobby_entries(self.lobbies@))
    }
}

impl LobbyManager {
    /// The directory's invariant: room ids are unique, and so are the members
    /// of each room.
    pub open spec fn wf(&self) -> bool {
        &&& keys_unique(lobby_entries(self.lobbies@))
        &&& forall|i: int|
            0 <= i < self.lobbies@.len() ==> keys_unique(member_entries(#[trigger] self.lobbies@[i].users@))
    }

    /// An empty directory.
    pub fn new() -> (r: LobbyManager)
        ensures
            r.wf(),
            r@ == Map::<Seq<char>, Map<Seq<char>, bool>>::empty(),
    {
        let r = LobbyManager { lobbies: Vec::new() };
        assert(r@ =~= Map::<Seq<char>, Map<Seq<char>, bool>>::empty());
        r
    }

    /// Index of the room `id`, if there is one.
    fn find_lobby(&self, id: &String) -> (r: Option<usize>)
        ensures
            r matches Some(i) ==> i < self.lobbies@.len() && self.lobbies@[i as int].id@ == id@,
            r is None ==> !self@.contains_key(id@),
    {
        let mut i: usize = 0;
        while i < self.lobbies.len()
            invariant
                i <= self.lobbies@.len(),
                forall|j: int| 0 <= j < i ==> self.lobbies@[j].id@ != id@,
            decreases self.lobbies@.len() - i,
        {
            if self.lobbies[i].id == *id {
                return Some(i);
            }
            i = i + 1;
        }
        proof {
            if self@.contains_key(id@) {
                let es = lobby_entries(self.lobbies@);
                let j = choose|j: int| 0 <= j < es.len() && es[j].0 == id@;
                assert(self.lobbies@[j].id@ == id@);
            }
        }
        None
    }

    /// Whether the room `id` exists.
    pub fn has_lobby(&self, id: &String) -> (r: bool)
        requires
            self.wf(),
        ensures
            r == self@.contains_key(id@),
    {
        match self.find_lobby(id) {
            Some(i) => {
                proof {
                    lemma_keyed_lookup(lobby_entries(self.lobbies@), i as int);
                }
                true
            },
            None => false,
        }
    }

    /// Creates the room `id` with no members; does nothing if it exists.
    pub fn create_lobby(&mut self, id: String)
        requires
            old(self).wf(),
        ensures
            final(self).wf(),
            final(self)@ == create_spec(old(self)@, id@),
    {
        match self.find_lobby(&id) {
            Some(i) => {
                proof {
                    lemma_keyed_lookup(lobby_entries(self.lobbies@), i as int);
                }
            },
            None => {
                let ghost pre = self.lobbies@;
                let l = LobbyData { id, users: Vec::new() };
                self.lobbies.push(l);
                proof {
                    assert(keyed(member_entries(l.users@)) =~= Map::<Seq<char>, bool>::empty());
                    lemma_keyed_push(lobby_entries(pre), l.id@, keyed(member_entries(l.users@)));
                    assert(lobby_entries(self.lobbies@) =~= lobby_entries(pre).push(
                        (l.id@, keyed(member_entries(l.users@))),
                    ));
                    assert(keys_unique(member_entries(l.users@)));
                }
            },
        }
    }

    /// Marks `u_id` as connected to room `l_id`, as a new member or as one
    /// who comes back.
    pub fn add_user(&mut self, l_id: &String, u_id: &String) -> (r: Result<(), LobbyError>)
        requires
            old(self).wf(),
        ensures
            final(self).wf(),
            match admit_spec(old(self)@, l_id@, u_id@) {
                Ok(m) => r is Ok && final(self)@ == m,
                Err(e) => r == Err::<(), LobbyError>(e) && final(self)@ == old(self)@,
            },
    {
        let i = match self.find_lobby(l_id) {
            Some(i) => i,
            None => {
                return Err(LobbyError::LobbyDoesNotExist);
            },
        };
        let ghost pre = self.lobbies@;
        proof {
            lemma_keyed_lookup(lobby_entries(pre), i as int);
        }
        let found = find_user(&self.lobbies[i].users, u_id);
        if let Some(j) = found {
            if self.lobbies[i].users[j].is_conn {
                proof {
                    lemma_keyed_lookup(member_entries(pre[i as int].users@), j as int);
                }
                return Err(LobbyError::UserAlreadyConnected);
            }
        }
        let mut l = LobbyData { id: String::new(), users: Vec::new() };
        self.lobbies.set_and_swap(i, &mut l);
        let ghost us0 = l.users@;
        assert(us0 == pre[i as int].users@);
        assert(keys_unique(member_entries(us0)));
        match found {
            Some(j) => {
                l.users.set(j, User { id: u_id.clone(), is_conn: true });
                proof {
                    lemma_keyed_update(member_entries(us0), j as int, true);
                    assert(member_entries(l.users@) =~= member_entries(us0).update(
                        j as int,
                        (member_entries(us0)[j as int].0, true),
                    ));
                }
            },
            None => {
                l.users.push(User { id: u_id.clone(), is_conn: true });
                proof {
                    lemma_keyed_push(member_entries(us0), u_id@, true);
                    assert(member_entries(l.users@) =~= member_entries(us0).push((u_id@, true)));
                }
            },
        }
        let ghost l_new = l;
        self.lobbies.set(i, l);
        proof {
            let v = keyed(member_entries(l_new.users@));
            lemma_keyed_update(lobby_entries(pre), i as int, v);
            assert(lobby_entries(self.lobbies@) =~= lobby_entries(pre).update(
                i as int,
                (lobby_entries(pre)[i as int].0, v),
            ));
            assert forall|a: int| 0 <= a < self.lobbies@.len() implies keys_unique(
                member_entries(#[trigger] self.lobbies@[a].users@),
            ) by {
                if a != i {
                    assert(self.lobbies@[a] == pre[a]);
                }
            }
        }
        Ok(())
    }

    /// Marks `u_id` as disconnected from room `l_id`; the room is removed when
    /// none of its members is left connected.
    pub fn disconnect_user(&mut self, l_id: &String, u_id: &String) -> (r: Result<(), LobbyError>)
        requires
            old(self).wf(),
        ensures
            final(self).wf(),
            match disconnect_spec(old(self)@, l_id@, u_id@) {
                Ok(m) => r is Ok && final(self)@ == m,
                Err(e) => r == Err::<(), LobbyError>(e) && final(self)@ == old(self)@,
            },
    {
        let i = match self.find_lobby(l_id) {
            Some(i) => i,
            None => {
                return Err(LobbyError::LobbyDoesNotExist);
            },
        };
        let ghost pre = self.lobbies@;
        proof {
            lemma_keyed_lookup(lobby_entries(pre), i as int);
        }
        let j = match find_user(&self.lobbies[i].users, u_id) {
            Some(j) => j,
            None => {
                return Err(LobbyError::UserDoesNotExist);
            },
        };
        let mut l = LobbyData { id: String::new(), users: Vec::new() };
        self.lobbies.set_and_swap(i, &mut l);
        let ghost us0 = l.users@;
        assert(us0 == pre[i as int].users@);
        l.users.set(j, User { id: u_id.clone(), is_conn: false });
        proof {
            lemma_keyed_update(member_entries(us0), j as int, false);
            assert(member_entries(l.users@) =~= member_entries(us0).update(
                j as int,
                (member_entries(us0)[j as int].0, false),
            ));
        }
        let ghost v = keyed(member_entries(l.users@));
        if has_connected(&l.users) {
            let ghost l_new = l;
            self.lobbies.set(i, l);
            proof {
                lemma_keyed_update(lobby_entries(pre), i as int, v);
                assert(lobby_entries(self.lobbies@) =~= lobby_entries(pre).update(
                    i as int,
                    (lobby_entries(pre)[i as int].0, v),
                ));
                assert forall|a: int| 0 <= a < self.lobbies@.len() implies keys_unique(
                    member_entries(#[trigger] self.lobbies@[a].users@),
                ) by {
                    if a != i {
                        assert(self.lobbies@[a] == pre[a]);
                    }
                }
            }
        } else {
            self.lobbies.set(i, l);
            let _ = self.lobbies.remove(i);
            proof {
                lemma_keyed_remove(lobby_entries(pre), i as int);
                assert(lobby_entries(self.lobbies@) =~= lobby_entries(pre).remove(i as int));
                assert forall|a: int| 0 <= a < self.lobbies@.len() implies keys_unique(
                    member_entries(#[trigger] self.lobbies@[a].users@),
                ) by {
                    let a2 = if a < i { a } else { a + 1 };
                    assert(self.lobbies@[a] == pre[a2]);
                }
            }
        }
        Ok(())
    }
}

} // verus!
