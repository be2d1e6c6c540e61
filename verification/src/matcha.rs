//! The speech engine's text-normalisation rules: which rule files it loads,
//! in which order.
use vstd::prelude::*;

use crate::text::{chars_of, string_of};

verus! {

/// Whether `w` occurs in `s` as a run of consecutive characters.
pub open spec fn has_infix(s: Seq<char>, w: Seq<char>) -> bool {
    exists|i: int| 0 <= i && i + w.len() <= s.len() && #[trigger] s.subrange(i, i + w.len()) == w
}

pub open spec fn phone_word() -> Seq<char> {
    seq!['p', 'h', 'o', 'n', 'e']
}

pub open spec fn date_word() -> Seq<char> {
    seq!['d', 'a', 't', 'e']
}

pub open spec fn number_word() -> Seq<char> {
    seq!['n', 'u', 'm', 'b', 'e', 'r']
}

/// A rule file's rank: phone numbers first, then dates, then numbers, then
/// every other rule.
pub open spec fn fst_priority(name: Seq<char>) -> int {
    if has_infix(name, phone_word()) {
        0
    } else if has_infix(name, date_word()) {
        1
    } else if has_infix(name, number_word()) {
        2
    } else {
        3
    }
}

/// The names of rank `p`, in their given order.
pub open spec fn of_priority(names: Seq<Seq<char>>, p: int) -> Seq<Seq<char>>
    decreases names.len(),
{
    if names.len() == 0 {
        Seq::empty()
    } else if fst_priority(names.last()) == p {
        of_priority(names.drop_last(), p).push(names.last())
    } else {
        of_priority(names.drop_last(), p)
    }
}

/// The names ordered by rank, keeping the given order within a rank.
pub open spec fn fst_order(names: Seq<Seq<char>>) -> Seq<Seq<char>> {
    of_priority(names, 0) + of_priority(names, 1) + of_priority(names, 2) + of_priority(names, 3)
}

/// The names written one after another, separated by commas.
pub open spec fn comma_joined(names: Seq<Seq<char>>) -> Seq<char>
    decreases names.len(),
{
    if names.len() == 0 {
        Seq::empty()
    } else if names.len() == 1 {
        names[0]
    } else {
        comma_joined(names.drop_last()) + seq![','] + names.last()
    }
}

pub open spec fn string_views(v: Seq<String>) -> Seq<Seq<char>> {
    v.map_values(|s: String| s@)
}

/// Whether `w` occurs in `s` starting at `i`.
fn matches_at(s: &Vec<char>, w: &[char], i: usize) -> (r: bool)
    requires
        i + w@.len() <= s@.len(),
    ensures
        r == (s@.subrange(i as int, i + w@.len()) == w@),
{
    let mut j: usize = 0;
    let mut same = true;
    while j < w.len()
        invariant
            i + w@.len() <= s@.len(),
            j <= w@.len(),
            same == (forall|m: int| 0 <= m < j ==> s@[i + m] == w@[m]),
        decreases w@.len() - j,
    {
        assert(i + j < s@.len());
        assert(s@.len() == s.len());
        if s[i + j] != w[j] {
            same = false;
        }
        j += 1;
    }
    if same {
        assert(s@.subrange(i as int, i + w@.len()) =~= w@);
    } else {
        proof {
            let m = choose|m: int| 0 <= m < w@.len() && s@[i + m] != w@[m];
            assert(s@.subrange(i as int, i + w@.len())[m] != w@[m]);
        }
    }
    same
}

/// Whether `w` occurs in `s`.
fn contains_word(s: &Vec<char>, w: &[char]) -> (r: bool)
    ensures
        r == has_infix(s@, w@),
{
    if w.len() > s.len() {
        return false;
    }
    let last = s.len() - w.len();
    let mut i: usize = 0;
    loop
        invariant
            i <= last,
            last == s@.len() - w@.len(),
            forall|k: int| 0 <= k < i ==> #[trigger] s@.subrange(k, k + w@.len()) != w@,
        decreases last - i,
    {
        if matches_at(s, w, i) {
            return true;
        }
        if i == last {
            return false;
        }
        i += 1;
    }
}

/// A rule file's rank; see [`fst_priority`].
fn priority(name: &Vec<char>) -> (p: u8)
    ensures
        p == fst_priority(name@),
{
    let phone = ['p', 'h', 'o', 'n', 'e'];
    let date = ['d', 'a', 't', 'e'];
    let number = ['n', 'u', 'm', 'b', 'e', 'r'];
    assert(phone@ =~= phone_word());
    assert(date@ =~= date_word());
    assert(number@ =~= number_word());
    if contains_word(name, &phone) {
        0
    } else if contains_word(name, &date) {
        1
    } else if contains_word(name, &number) {
        2
    } else {
        3
    }
}

/// The rule-file list the engine is configured with: the rule files found
/// ordered by rank (phone, date, number, then the rest; stable within a
/// rank) and joined by commas, or none when there is no rule file.
pub fn rule_fst_list(files: &Vec<String>) -> (r: Option<String>)
    ensures
        files@.len() == 0 ==> r is None,
        files@.len() > 0 ==> (r matches Some(s) && s@ == comma_joined(fst_order(string_views(files@)))),
{
    let ghost names_all = string_views(files@);
    let mut names: Vec<Vec<char>> = Vec::new();
    let mut i: usize = 0;
    while i < files.len()
        invariant
            i <= files@.len(),
            names@.len() == i,
            forall|k: int| 0 <= k < i ==> #[trigger] names@[k]@ == files@[k]@,
        decreases files@.len() - i,
    {
        names.push(chars_of(files[i].as_str()));
        i += 1;
    }
    if files.len() == 0 {
        return None;
    }
    let ghost views = names@.map_values(|v: Vec<char>| v@);
    assert(views =~= names_all);
    let mut out: Vec<char> = Vec::new();
    let mut picked = false;
    let ghost mut done: Seq<Seq<char>> = Seq::empty();
    let mut p: u8 = 0;
    while p < 4
        invariant
            p <= 4,
            names@.len() == files@.len() > 0,
            views == names@.map_values(|v: Vec<char>| v@),
            done == ranks_before(views, p as int),
            out@ == comma_joined(done),
            picked == (done.len() > 0),
        decreases 4 - p,
    {
        let mut k: usize = 0;
        let ghost start = done;
        assert(views.take(0) =~= Seq::<Seq<char>>::empty());
        while k < names.len()
            invariant
                p < 4,
                k <= names@.len(),
                views == names@.map_values(|v: Vec<char>| v@),
                start == ranks_before(views, p as int),
                done == start + of_priority(views.take(k as int), p as int),
                out@ == comma_joined(done),
                picked == (done.len() > 0),
            decreases names@.len() - k,
        {
            let ghost before = done;
            assert(views.take(k + 1).drop_last() =~= views.take(k as int));
            assert(views.take(k + 1).last() == names@[k as int]@);
            if priority(&names[k]) == p {
                if picked {
                    out.push(',');
                }
                let mut w: usize = 0;
                let ghost base = out@;
                while w < names[k].len()
                    invariant
                        w <= names@[k as int]@.len(),
                        k < names@.len(),
                        out@ == base + names@[k as int]@.take(w as int),
                    decreases names@[k as int]@.len() - w,
                {
                    out.push(names[k][w]);
                    proof {
                        assert(names@[k as int]@.take(w + 1) =~= names@[k as int]@.take(w as int).push(names@[k as int]@[w as int]));
                    }
                    w += 1;
                }
                assert(names@[k as int]@.take(w as int) =~= names@[k as int]@);
                proof {
                    done = before.push(names@[k as int]@);
                    assert(done.drop_last() =~= before);
                    if before.len() == 0 {
                        assert(out@ =~= names@[k as int]@);
                    } else {
                        assert(out@ =~= comma_joined(before) + seq![','] + names@[k as int]@);
                    }
                    assert(start + of_priority(views.take(k + 1), p as int) =~= (start + of_priority(views.take(k as int), p as int)).push(names@[k as int]@));
                }
                picked = true;
            }
            k += 1;
        }
        assert(views.take(k as int) =~= views);
        proof {
            assert(ranks_before(views, p + 1) == ranks_before(views, p as int) + of_priority(views, p as int));
        }
        p += 1;
    }
    proof {
        lemma_every_rank_nonempty(views);
        assert(ranks_before(views, 4) =~= fst_order(views));
    }
    Some(string_of(out.as_slice()))
}

/// The names of every rank below `p`, rank by rank.
pub open spec fn ranks_before(names: Seq<Seq<char>>, p: int) -> Seq<Seq<char>>
    decreases p,
{
    if p <= 0 {
        Seq::empty()
    } else {
        ranks_before(names, p - 1) + of_priority(names, p - 1)
    }
}

proof fn lemma_every_rank_nonempty(names: Seq<Seq<char>>)
    ensures
        ranks_before(names, 4) == fst_order(names),
{
    reveal_with_fuel(ranks_before, 5);
    assert(ranks_before(names, 1) =~= of_priority(names, 0));
}

} // verus!

verus! {

/// Where one sentence's audio packets stand: whether its first packet has
/// gone out. Each packet carries `(is_first, is_last)`.
pub struct PacketFlags {
    started: bool,
}

impl PacketFlags {
    /// Whether the sentence's first packet has gone out.
    pub closed spec fn started(&self) -> bool {
        self.started
    }

    pub fn new() -> (p: Self)
        ensures
            !p.started(),
    {
        PacketFlags { started: false }
    }

    /// The flags of a frame encoded while the sentence is synthesised: the
    /// first such packet is the sentence's first, none is its last.
    pub fn stream_frame(&mut self) -> (flags: (bool, bool))
        ensures
            flags == (!old(self).started(), false),
            final(self).started(),
    {
        let first = !self.started;
        self.started = true;
        (first, false)
    }

    /// The flags of the `index`-th frame the encoder flushes at the end of
    /// the sentence: each is a last packet, and the flush's first frame is
    /// also the sentence's first when nothing went out before it.
    pub fn flush_frame(&mut self, index: usize) -> (flags: (bool, bool))
        ensures
            flags == (!old(self).started() && index == 0, true),
            final(self).started() == (old(self).started() || index == 0),
    {
        let first = !self.started && index == 0;
        if first {
            self.started = true;
        }
        (first, true)
    }
}

} // verus!
