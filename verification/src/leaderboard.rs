//! The leaderboard of finished games.

use vstd::prelude::*;
use crate::types::GameOver;

verus! {

/// Number of UTF-8 bytes that encode `c`.
pub open spec fn utf8_width(c: char) -> nat {
    if (c as u32) < 0x80 {
        1
    } else if (c as u32) < 0x800 {
        2
    } else if (c as u32) < 0x10000 {
        3
    } else {
        4
    }
}

/// Number of UTF-8 bytes that encode `s`.
pub open spec fn utf8_len(s: Seq<char>) -> nat
    decreases s.len(),
{
    if s.len() == 0 {
        0
    } else {
        utf8_len(s.drop_last()) + utf8_width(s.last())
    }
}

/// The longest name that a leaderboard keeps, in bytes.
pub const NAME_MAX_BYTES: usize = 8;

/// Byte `n` of `s` lies on a character boundary (or past its end).
pub open spec fn is_char_boundary(s: Seq<char>, n: nat) -> bool {
    utf8_len(s) <= n || exists|k: int| 0 <= k <= s.len() && utf8_len(#[trigger] s.take(k)) == n
}

/// `String::truncate`: the string is cut to its first `len` bytes; a string no
/// longer than that is kept whole. The call panics when `len` does not fall on a
/// character boundary, which `requires` rules out.
#[verifier::external_body]
fn string_truncate(s: &mut String, len: usize)
    requires
        is_char_boundary(old(s)@, len as nat),
    ensures
        final(s)@.is_prefix_of(old(s)@),
        utf8_len(old(s)@) <= len ==> final(s)@ == old(s)@,
        utf8_len(old(s)@) > len ==> utf8_len(final(s)@) == len,
{
    s.truncate(len)
}

pub struct LeaderboardEntry {
    pub name: String,
    pub gameover: GameOver,
}

impl Clone for LeaderboardEntry {
    fn clone(&self) -> (r: Self)
        ensures
            r.name@ == self.name@,
            r.gameover == self.gameover,
    {
        LeaderboardEntry { name: self.name.clone(), gameover: self.gameover }
    }
}

impl LeaderboardEntry {
    /// An entry under `name`, cut to its first eight bytes.
    pub fn new(name: String, gameover: &GameOver) -> (r: LeaderboardEntry)
        requires
            is_char_boundary(name@, NAME_MAX_BYTES as nat),
        ensures
            r.name@.is_prefix_of(name@),
            utf8_len(name@) <= NAME_MAX_BYTES ==> r.name@ == name@,
            utf8_len(name@) > NAME_MAX_BYTES ==> utf8_len(r.name@) == NAME_MAX_BYTES,
            r.gameover == *gameover,
    {
        let mut name = name;
        string_truncate(&mut name, NAME_MAX_BYTES);
        LeaderboardEntry { name, gameover: *gameover }
    }
}

/// The scores of a list of entries.
pub open spec fn scores(entries: Seq<LeaderboardEntry>) -> Seq<u64> {
    entries.map_values(|e: LeaderboardEntry| e.gameover.score)
}

/// Entries ordered by score, lowest first.
pub open spec fn sorted_by_score(entries: Seq<LeaderboardEntry>) -> bool {
    forall|i: int, j: int| 0 <= i <= j < entries.len() ==> #[trigger] entries[i].gameover.score <= #[trigger] entries[j].gameover.score
}

/// Where a stable sort by score places a new entry: after every entry that
/// scores no more than it.
pub open spec fn insertion_index(entries: Seq<LeaderboardEntry>, score: u64) -> int
    decreases entries.len(),
{
    if entries.len() == 0 {
        0
    } else {
        insertion_index(entries.drop_last(), score) + if entries.last().gameover.score <= score {
            1int
        } else {
            0
        }
    }
}

/// Entries ordered by score, lowest first.
pub struct Leaderboard {
    entries: Vec<LeaderboardEntry>,
}

impl Leaderboard {
    #[verifier::type_invariant]
    spec fn inv(self) -> bool {
        sorted_by_score(self.entries@)
    }

    pub closed spec fn view(&self) -> Seq<LeaderboardEntry> {
        self.entries@
    }

    pub fn new() -> (r: Leaderboard)
        ensures
            r.view() == Seq::<LeaderboardEntry>::empty(),
    {
        Leaderboard { entries: Vec::new() }
    }

    /// Adds an entry; the entries stay ordered by score, and among entries of
    /// equal score the new one comes last.
    pub fn add(&mut self, entry: LeaderboardEntry)
        ensures
            ({
                let i = insertion_index(old(self).view(), entry.gameover.score);
                &&& 0 <= i <= old(self).view().len()
                &&& final(self).view() == old(self).view().insert(i, entry)
                &&& forall|k: int| 0 <= k < i ==> #[trigger] old(self).view()[k].gameover.score <= entry.gameover.score
                &&& forall|k: int| i <= k < old(self).view().len() ==> #[trigger] old(self).view()[k].gameover.score > entry.gameover.score
            }),
            sorted_by_score(final(self).view()),
    {
        proof {
            use_type_invariant(&*self);
        }
        let score = entry.gameover.score;
        let n = self.entries.len();
        let mut i: usize = 0;
        while i < n && self.entries[i].gameover.score <= score
            invariant
                n == self.entries.len(),
                i <= n,
                sorted_by_score(self.entries@),
                forall|k: int| 0 <= k < i ==> #[trigger] self.entries@[k].gameover.score <= score,
            decreases n - i,
        {
            i = i + 1;
        }
        let ghost old_entries = self.entries@;
        proof {
            assert forall|k: int| i <= k < n implies #[trigger] old_entries[k].gameover.score > score by {
                assert(old_entries[i as int].gameover.score > score);
            }
            lemma_insertion_index(old_entries, score, i as int);
        }
        let mut entries: Vec<LeaderboardEntry> = Vec::new();
        std::mem::swap(&mut entries, &mut self.entries);
        entries.insert(i, entry);
        proof {
            let s = entries@;
            assert forall|a: int, b: int| 0 <= a <= b < s.len() implies #[trigger] s[a].gameover.score <= #[trigger] s[b].gameover.score by {
                if a < i && b > i {
                    assert(s[b] == old_entries[b - 1]);
                } else if a > i {
                    assert(s[a] == old_entries[a - 1]);
                    assert(s[b] == old_entries[b - 1]);
                } else if b < i {
                } else if a == i && b > i {
                    assert(s[b] == old_entries[b - 1]);
                } else if b == i && a < i {
                }
            }
        }
        self.entries = entries;
    }

    /// The `n` best entries, in increasing score, or all of them when there are fewer.
    pub fn top_entries(&self, n: usize) -> (r: &[LeaderboardEntry])
        ensures
            ({
                let len = self.view().len();
                let k = if n < len {
                    n as int
                } else {
                    len as int
                };
                r@ == self.view().subrange(len - k, len as int)
            }),
            sorted_by_score(self.view()),
            sorted_by_score(r@),
    {
        proof {
            use_type_invariant(self);
        }
        let len = self.entries.len();
        let end = if n < len {
            n
        } else {
            len
        };
        let start = len - end;
        &self.entries.as_slice()[start..len]
    }
}

/// In sorted entries, the entries that score no more than `score` are exactly the
/// first `i`.
proof fn lemma_insertion_index(entries: Seq<LeaderboardEntry>, score: u64, i: int)
    requires
        0 <= i <= entries.len(),
        forall|k: int| 0 <= k < i ==> #[trigger] entries[k].gameover.score <= score,
        forall|k: int| i <= k < entries.len() ==> #[trigger] entries[k].gameover.score > score,
    ensures
        insertion_index(entries, score) == i,
    decreases entries.len(),
{
    if entries.len() > 0 {
        let init = entries.drop_last();
        if i == entries.len() {
            lemma_insertion_index(init, score, i - 1);
        } else {
            lemma_insertion_index(init, score, i);
        }
    }
}

impl Clone for Leaderboard {
    fn clone(&self) -> (r: Leaderboard)
        ensures
            r.view().len() == self.view().len(),
            forall|i: int| 0 <= i < self.view().len() ==> #[trigger] r.view()[i].gameover == self.view()[i].gameover
                && r.view()[i].name@ == self.view()[i].name@,
    {
        proof {
            use_type_invariant(self);
        }
        let mut entries: Vec<LeaderboardEntry> = Vec::new();
        let n = self.entries.len();
        let mut i: usize = 0;
        while i < n
            invariant
                n == self.entries@.len(),
                i <= n,
                sorted_by_score(self.entries@),
                entries@.len() == i,
                forall|k: int| 0 <= k < i ==> #[trigger] entries@[k].gameover == self.entries@[k].gameover
                    && entries@[k].name@ == self.entries@[k].name@,
            decreases n - i,
        {
            let e = self.entries[i].clone();
            entries.push(e);
            i = i + 1;
        }
        Leaderboard { entries }
    }
}

impl Default for Leaderboard {
    fn default() -> (r: Leaderboard)
        ensures
            r.view() == Seq::<LeaderboardEntry>::empty(),
    {
        Leaderboard::new()
    }
}

} // verus!
