//! Core data model: clubs, the club registry, matches and samples.
use vstd::assert_sets_equal;
use vstd::prelude::*;

use crate::ratio::Ratio;

verus! {

/// A fatal query error.  Either kind aborts the whole pipeline pass:
/// skipping a match would desynchronize the ledger from the match set.
#[derive(Clone, Copy, Debug, PartialEq, Eq, Structural)]
pub enum GuruError {
    /// A club was queried that the registry does not hold; the registry
    /// and the match set disagree.
    MissingClub,
    /// A games-played counter can no longer advance without breaking
    /// the counter/length invariant.
    LedgerInvariant,
    /// A persisted field (a league label) cannot be read as required.
    UnparsableRecord,
}

/// A participant entity, identified by name.
#[derive(Debug)]
pub struct Club {
    pub name: String,
}

impl Club {
    pub fn new(name: String) -> (c: Club)
        ensures
            c.name == name,
    {
        Club { name }
    }
}

impl Clone for Club {
    fn clone(&self) -> (c: Club)
        ensures
            c == *self,
    {
        Club { name: self.name.clone() }
    }
}

/// Marks either the scoring of the home side or of the away side.
#[derive(Clone, Copy, Debug, Eq, Hash, PartialEq, Structural)]
pub enum Scoring {
    Home,
    Away,
}

/// A match between two clubs.  The date is kept as seconds since the Unix
/// epoch together with its timezone offset; ordering and recency features
/// depend on the instant alone.  A missing result marks a fixture that is
/// to be predicted: it is never a training example and never touches the
/// ledger.
#[derive(Debug)]
pub struct Match {
    /// Seconds since the Unix epoch.
    pub date: i64,
    /// Timezone offset of the recorded date, in seconds east of UTC.
    pub offset: i32,
    /// League or competition label.
    pub league: String,
    pub home: String,
    pub away: String,
    /// `[home_goals, away_goals]`, absent for a fixture still to be played.
    pub result: Option<[u8; 2]>,
}

impl Match {
    pub fn new(
        date: i64,
        offset: i32,
        league: String,
        home: String,
        away: String,
        result: Option<[u8; 2]>,
    ) -> (m: Match)
        ensures
            m.date == date,
            m.offset == offset,
            m.league == league,
            m.home == home,
            m.away == away,
            m.result == result,
    {
        Match { date, offset, league, home, away, result }
    }
}

impl Clone for Match {
    fn clone(&self) -> (m: Match)
        ensures
            m == *self,
    {
        Match {
            date: self.date,
            offset: self.offset,
            league: self.league.clone(),
            home: self.home.clone(),
            away: self.away.clone(),
            result: self.result,
        }
    }
}

/// The set of club names appearing as home or away in `ms`.
pub open spec fn spec_club_names(ms: Seq<Match>) -> Set<Seq<char>>
    decreases ms.len(),
{
    if ms.len() == 0 {
        Set::empty()
    } else {
        spec_club_names(ms.drop_last()).insert(ms.last().home@).insert(ms.last().away@)
    }
}

/// The registry of all clubs found in a set of matches.  A club's index is
/// its position; the mapping club name -> index is a bijection onto
/// `[0, len)`.
#[derive(Debug)]
pub struct Clubs {
    pub data: Vec<Club>,
}

impl Clubs {
    /// The club names in index order.
    pub open spec fn names(self) -> Seq<Seq<char>> {
        self.data@.map_values(|c: Club| c.name@)
    }

    /// The registry holds `n`.
    pub open spec fn contains_name(self, n: Seq<char>) -> bool {
        exists|i: int| 0 <= i < self.data@.len() && self.data@[i].name@ == n
    }

    /// The set of registered club names.
    pub open spec fn name_set(self) -> Set<Seq<char>> {
        self.names().to_set()
    }

    /// Names are pairwise distinct and the index space fits in `u32`.
    pub open spec fn wf(self) -> bool {
        &&& forall|i: int, j: int|
            0 <= i < j < self.data@.len() ==> self.data@[i].name@ != self.data@[j].name@
        &&& self.data@.len() <= u32::MAX
    }

    /// The dense index assigned to `club_name`, or `None` when the club is
    /// not registered — a loud failure the caller must handle, never a
    /// silent default index.
    pub fn get_index_by_name(&self, club_name: &String) -> (r: Option<u32>)
        requires
            self.data@.len() <= u32::MAX,
        ensures
            match r {
                Some(i) => i < self.data@.len() && self.data@[i as int].name@ == club_name@,
                None => !self.contains_name(club_name@),
            },
    {
        let n = self.data.len();
        for i in 0..n
            invariant
                n == self.data@.len(),
                n <= u32::MAX,
                forall|j: int| 0 <= j < i ==> self.data@[j].name@ != club_name@,
        {
            if self.data[i].name == *club_name {
                return Some(i as u32);
            }
        }
        None
    }

    fn push_if_new(&mut self, club_name: &String)
        requires
            old(self).wf(),
            old(self).data@.len() + 1 <= u32::MAX,
        ensures
            final(self).wf(),
            final(self).data@.len() <= old(self).data@.len() + 1,
            forall|n: Seq<char>|
                final(self).contains_name(n) <==> (old(self).contains_name(n) || n
                    == club_name@),
    {
        match self.get_index_by_name(club_name) {
            Some(_) => {
                assert(self.contains_name(club_name@));
            },
            None => {
                self.data.push(Club { name: club_name.clone() });
                assert forall|n: Seq<char>|
                    self.contains_name(n) <==> (old(self).contains_name(n) || n
                        == club_name@) by {
                    let len = old(self).data@.len() as int;
                    if old(self).contains_name(n) {
                        let j = choose|j: int|
                            0 <= j < len && old(self).data@[j].name@ == n;
                        assert(self.data@[j].name@ == n);
                    }
                    if n == club_name@ {
                        assert(self.data@[len].name@ == n);
                    }
                    if self.contains_name(n) {
                        let j = choose|j: int|
                            0 <= j < self.data@.len() && self.data@[j].name@ == n;
                        if j < len {
                            assert(old(self).data@[j].name@ == n);
                        }
                    }
                }
            },
        }
    }

    /// Builds the registry from a match collection: every club seen as
    /// home or away is registered exactly once.  Which index a club gets
    /// is an artifact of the build; only the club set is promised.
    pub fn from_matches(matches: &Vec<Match>) -> (c: Clubs)
        requires
            matches@.len() <= 0x3fff_ffff,
        ensures
            c.wf(),
            forall|n: Seq<char>| c.contains_name(n) <==> spec_club_names(matches@).contains(n),
            c.name_set() == spec_club_names(matches@),
    {
        let mut c = Clubs { data: Vec::new() };
        let total = matches.len();
        assert(matches@.take(0) =~= Seq::<Match>::empty());
        for i in 0..total
            invariant
                total == matches@.len(),
                total <= 0x3fff_ffff,
                c.wf(),
                c.data@.len() <= 2 * i,
                forall|nm: Seq<char>|
                    c.contains_name(nm) <==> spec_club_names(matches@.take(i as int)).contains(
                        nm,
                    ),
        {
            let ghost pre = matches@.take(i as int);
            c.push_if_new(&matches[i].home);
            c.push_if_new(&matches[i].away);
            proof {
                assert(matches@.take(i + 1).drop_last() =~= pre);
                assert(matches@.take(i + 1).last() == matches@[i as int]);
            }
        }
        proof {
            assert(matches@.take(total as int) =~= matches@);
            lemma_name_set_is_contains(c);
            assert_sets_equal!(c.name_set() == spec_club_names(matches@), n => {
                assert(c.name_set().contains(n) <==> c.contains_name(n));
                assert(c.contains_name(n) <==> spec_club_names(matches@.take(total as int)).contains(n));
            });
        }
        c
    }
}

/// The name set of a registry is exactly what `contains_name` says.
proof fn lemma_name_set_is_contains(c: Clubs)
    ensures
        forall|n: Seq<char>| c.name_set().contains(n) <==> c.contains_name(n),
{
    assert forall|n: Seq<char>| c.name_set().contains(n) <==> c.contains_name(n) by {
        if c.name_set().contains(n) {
            let j = choose|j: int| 0 <= j < c.names().len() && c.names()[j] == n;
            assert(c.data@[j].name@ == n);
        }
        if c.contains_name(n) {
            let j = choose|j: int| 0 <= j < c.data@.len() && c.data@[j].name@ == n;
            assert(c.names()[j] == n);
            assert(c.names().contains(n));
        }
    }
}

/// Law: rebuilding the registry from the same match set yields the same
/// club set, and the two registries have the same size, so club -> index
/// is in both cases a bijection onto the same index range; only the index
/// labels may differ between builds.
pub proof fn lemma_registry_rebuild(c1: Clubs, c2: Clubs, ms: Seq<Match>)
    requires
        c1.wf(),
        c2.wf(),
        c1.name_set() == spec_club_names(ms),
        c2.name_set() == spec_club_names(ms),
    ensures
        c1.name_set() == c2.name_set(),
        c1.data@.len() == c2.data@.len(),
{
    lemma_registry_size(c1);
    lemma_registry_size(c2);
}

/// A well-formed registry has exactly as many indices as club names.
proof fn lemma_registry_size(c: Clubs)
    requires
        c.wf(),
    ensures
        c.name_set().len() == c.data@.len(),
{
    assert(c.names().no_duplicates()) by {
        assert forall|i: int, j: int|
            0 <= i < c.names().len() && 0 <= j < c.names().len() && i != j implies c.names()[i]
            != c.names()[j] by {
            assert(c.names()[i] == c.data@[i].name@);
            assert(c.names()[j] == c.data@[j].name@);
        }
    }
    c.names().unique_seq_to_set();
}

/// One sample: a feature vector paired with its target vector.  The
/// target is empty for a fixture without a result (a prediction input),
/// and holds the two normalized goal values otherwise.
#[derive(Debug)]
pub struct DataEntry {
    pub inputs: Vec<Ratio>,
    pub outputs: Vec<Ratio>,
}

/// A partition of a match collection into subsets, optionally keeping the
/// source collection alongside.
#[derive(Debug)]
pub struct Sets {
    pub original: Option<Vec<Match>>,
    pub data: Vec<Vec<Match>>,
}

impl Sets {
    pub fn new(original: Option<Vec<Match>>, data: Vec<Vec<Match>>) -> (s: Sets)
        ensures
            s.original == original,
            s.data == data,
    {
        Sets { original, data }
    }
}

} // verus!
