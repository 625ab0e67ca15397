use vstd::prelude::*;

verus! {

/// The tokens of the teams that currently hold an instance or wait for one,
/// in the order they came in. A team can be present at most once.
pub struct TeamRegistry {
    tokens: Vec<String>,
}

impl View for TeamRegistry {
    type V = Seq<Seq<char>>;

    closed spec fn view(&self) -> Seq<Seq<char>> {
        self.tokens@.map_values(|s: String| s@)
    }
}

impl TeamRegistry {
    /// No team is registered.
    pub fn new() -> (r: TeamRegistry)
        ensures
            r@ == Seq::<Seq<char>>::empty(),
    {
        let r = TeamRegistry { tokens: Vec::new() };
        assert(r@ =~= Seq::<Seq<char>>::empty());
        r
    }

    /// Whether the team with `token` is registered.
    pub fn contains(&self, token: &String) -> (found: bool)
        ensures
            found == self@.contains(token@),
    {
        let n = self.tokens.len();
        let mut i: usize = 0;
        while i < n
            invariant
                n == self.tokens@.len(),
                0 <= i <= n,
                forall|j: int| 0 <= j < i ==> self@[j] != token@,
            decreases n - i,
        {
            if self.tokens[i] == *token {
                assert(self@[i as int] == token@);
                return true;
            }
            i = i + 1;
        }
        false
    }

    /// Registers the team with `token` unless it is registered already;
    /// returns whether it was registered now.
    pub fn try_register(&mut self, token: &String) -> (added: bool)
        ensures
            added == !old(self)@.contains(token@),
            added ==> final(self)@ == old(self)@.push(token@),
            !added ==> final(self)@ == old(self)@,
    {
        if self.contains(token) {
            false
        } else {
            self.tokens.push(token.clone());
            assert(self@ =~= old(self)@.push(token@));
            true
        }
    }

    /// Removes the team with `token` (its first entry); returns whether it was
    /// registered.
    pub fn release(&mut self, token: &String) -> (removed: bool)
        ensures
            removed == old(self)@.contains(token@),
            final(self)@ == old(self)@.remove_value(token@),
    {
        proof {
            self@.index_of_first_ensures(token@);
        }
        let n = self.tokens.len();
        let mut i: usize = 0;
        while i < n
            invariant
                n == self.tokens@.len(),
                self == old(self),
                0 <= i <= n,
                forall|j: int| 0 <= j < i ==> self@[j] != token@,
            decreases n - i,
        {
            if self.tokens[i] == *token {
                proof {
                    old(self)@.index_of_first_ensures(token@);
                    assert(old(self)@[i as int] == token@);
                    assert(old(self)@.contains(token@));
                    let idx = old(self)@.index_of_first(token@).unwrap();
                    assert(idx == i as int) by {
                        if idx < i {
                        } else if idx > i {
                        }
                    }
                }
                self.tokens.remove(i);
                assert(self@ =~= old(self)@.remove(i as int));
                return true;
            }
            i = i + 1;
        }
        assert(!old(self)@.contains(token@));
        false
    }

    /// Registered teams.
    pub fn len(&self) -> (n: usize)
        ensures
            n == self@.len(),
    {
        self.tokens.len()
    }
}

/// A registry made only by these operations never holds a team twice: a new
/// registry holds none, a registration adds a team only when absent, and a
/// release only takes one out.
pub proof fn lemma_registry_no_duplicates(teams: Seq<Seq<char>>, token: Seq<char>)
    requires
        teams.no_duplicates(),
    ensures
        Seq::<Seq<char>>::empty().no_duplicates(),
        !teams.contains(token) ==> teams.push(token).no_duplicates(),
        teams.remove_value(token).no_duplicates(),
{
    teams.index_of_first_ensures(token);
    if !teams.contains(token) {
        let after = teams.push(token);
        assert forall|i: int, j: int| 0 <= i < after.len() && 0 <= j < after.len() && i != j implies after[i] != after[j] by {
            if i == teams.len() {
                assert(teams[j] == after[j]);
            } else if j == teams.len() {
                assert(teams[i] == after[i]);
            }
        }
    } else {
        let idx = teams.index_of_first(token).unwrap();
        let after = teams.remove(idx);
        assert forall|i: int, j: int| 0 <= i < after.len() && 0 <= j < after.len() && i != j implies after[i] != after[j] by {
            let i2 = if i < idx { i } else { i + 1 };
            let j2 = if j < idx { j } else { j + 1 };
            assert(after[i] == teams[i2]);
            assert(after[j] == teams[j2]);
        }
    }
}

/// Registering a team that is not registered and then releasing it leaves the
/// registry as it was; registering a team that is registered changes nothing.
pub proof fn lemma_registry_round_trip(teams: Seq<Seq<char>>, token: Seq<char>)
    ensures
        !teams.contains(token) ==> teams.push(token).remove_value(token) == teams,
        !teams.contains(token) ==> teams.push(token).contains(token),
{
    if !teams.contains(token) {
        let after = teams.push(token);
        after.index_of_first_ensures(token);
        assert(after[teams.len() as int] == token);
        let idx = after.index_of_first(token).unwrap();
        assert(idx == teams.len()) by {
            if idx < teams.len() {
                assert(teams[idx] == token);
            }
        }
        assert(after.remove(idx) =~= teams);
    }
}

} // verus!
