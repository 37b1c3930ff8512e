//! The results of the combat engines and the tallies they keep: deaths by
//! unit, attacks by source, target, attack and outcome, and mana by source
//! and ability.
use vstd::prelude::*;

use crate::basic_data::{BasicGameData, BASIC_DATA_VERSION, BASIC_FLY_ZONE_HRID};
use crate::combat_scope::{refusal, unsupported, CombatScope};
use crate::contracts::SimulationRequestV1;
use crate::error::SimError;
use crate::float_bits::Number;
use crate::sorting::{lemma_text_lt_order, text_lt, Ranked};
use crate::text::{concat, decimal, decimal_text, text_eq};
use crate::time::SimTime;
use crate::whole::{spec_whole_value, whole_value};
use crate::ENGINE_VERSION;

verus! {

/// The characters of each name of a path.
pub open spec fn path_view(path: Seq<String>) -> Seq<Seq<char>> {
    path.map_values(|s: String| s@)
}

/// `a < b` for paths of names: the first differing name decides, in
/// `String` order, and a path comes before its extensions. This is the
/// order in which nested maps keyed by names list their leaves.
pub open spec fn path_lt(a: Seq<Seq<char>>, b: Seq<Seq<char>>) -> bool
    decreases a.len(),
{
    if a.len() == 0 {
        b.len() > 0
    } else if b.len() == 0 {
        false
    } else if a[0] != b[0] {
        text_lt(a[0], b[0])
    } else {
        path_lt(a.drop_first(), b.drop_first())
    }
}

/// `path_lt` is a strict total order.
pub proof fn lemma_path_lt_order(a: Seq<Seq<char>>, b: Seq<Seq<char>>, c: Seq<Seq<char>>)
    ensures
        !path_lt(a, a),
        path_lt(a, b) && path_lt(b, c) ==> path_lt(a, c),
        a == b || path_lt(a, b) || path_lt(b, a),
    decreases a.len(),
{
    if a.len() > 0 {
        lemma_text_lt_order(a[0], a[0], a[0]);
        if b.len() > 0 && c.len() > 0 {
            lemma_text_lt_order(a[0], b[0], c[0]);
            lemma_text_lt_order(a[0], c[0], c[0]);
            lemma_text_lt_order(b[0], c[0], c[0]);
            lemma_path_lt_order(a.drop_first(), b.drop_first(), c.drop_first());
        } else if b.len() > 0 {
            lemma_text_lt_order(a[0], b[0], b[0]);
            lemma_path_lt_order(a.drop_first(), b.drop_first(), b.drop_first());
        } else {
            lemma_path_lt_order(a.drop_first(), a.drop_first(), a.drop_first());
        }
        if b.len() > 0 && a[0] == b[0] && a.drop_first() == b.drop_first() {
            assert(a =~= seq![a[0]] + a.drop_first());
            assert(b =~= seq![b[0]] + b.drop_first());
        }
    } else if b.len() == 0 {
        assert(a =~= b);
    }
}

/// Three-way comparison of two paths in `path_lt` order.
pub fn compare_paths(a: &Vec<String>, b: &Vec<String>) -> (r: i8)
    ensures
        r < 0 <==> path_lt(path_view(a@), path_view(b@)),
        r == 0 <==> path_view(a@) == path_view(b@),
        r > 0 <==> path_lt(path_view(b@), path_view(a@)),
{
    let ghost pa = path_view(a@);
    let ghost pb = path_view(b@);
    proof {
        lemma_path_lt_order(pa, pb, pb);
        lemma_path_lt_order(pb, pa, pa);
        assert(pa.skip(0) =~= pa);
        assert(pb.skip(0) =~= pb);
    }
    let mut i: usize = 0;
    while i < a.len() && i < b.len()
        invariant
            pa == path_view(a@),
            pb == path_view(b@),
            i <= a@.len(),
            i <= b@.len(),
            pa.take(i as int) == pb.take(i as int),
            path_lt(pa, pb) == path_lt(pa.skip(i as int), pb.skip(i as int)),
            path_lt(pb, pa) == path_lt(pb.skip(i as int), pa.skip(i as int)),
        decreases a@.len() - i,
    {
        let c = a[i].rank(&b[i]);
        proof {
            assert(pa.skip(i as int)[0] == a@[i as int]@);
            assert(pb.skip(i as int)[0] == b@[i as int]@);
        }
        if c != 0 {
            proof {
                assert(pa[i as int] != pb[i as int]);
            }
            return c;
        }
        proof {
            assert(pa.skip(i as int).drop_first() =~= pa.skip(i + 1));
            assert(pb.skip(i as int).drop_first() =~= pb.skip(i + 1));
            assert(pa.take(i + 1) =~= pa.take(i as int).push(pa[i as int]));
            assert(pb.take(i + 1) =~= pb.take(i as int).push(pb[i as int]));
        }
        i = i + 1;
    }
    if a.len() < b.len() {
        proof {
            assert(pa.skip(i as int).len() == 0);
            assert(pa.take(i as int) == pb.take(i as int));
            assert(pa != pb) by {
                assert(pa.len() != pb.len());
            }
        }
        -1
    } else if b.len() < a.len() {
        proof {
            assert(pb.skip(i as int).len() == 0);
            assert(pa.len() != pb.len());
        }
        1
    } else {
        proof {
            assert(pa =~= pa.take(i as int));
            assert(pb =~= pb.take(i as int));
        }
        0
    }
}

/// Counts keyed by a path of names: a nested map flattened to its leaves.
/// Each path occurs once; entries are in ascending `path_lt` order, the
/// order in which nested maps keyed by names list their leaves.
#[derive(Clone, Debug)]
pub struct TallyV1 {
    entries: Vec<(Vec<String>, u64)>,
}

impl TallyV1 {
    /// The internal invariant: paths ascend, so none occurs twice.
    pub closed spec fn wf(self) -> bool {
        &&& forall|i: int, j: int|
            0 <= i < j < self.entries@.len() ==> path_lt(
                path_view((#[trigger] self.entries@[i]).0@),
                path_view((#[trigger] self.entries@[j]).0@),
            )
        &&& forall|i: int, j: int|
            0 <= i < self.entries@.len() && 0 <= j < self.entries@.len() && i != j ==> path_view(
                (#[trigger] self.entries@[i]).0@,
            ) != path_view((#[trigger] self.entries@[j]).0@)
    }

    /// The count of each path that has one.
    pub closed spec fn counts(self) -> Map<Seq<Seq<char>>, u64> {
        Map::new(
            |k: Seq<Seq<char>>|
                exists|i: int|
                    0 <= i < self.entries@.len() && path_view(self.entries@[i].0@) == k,
            |k: Seq<Seq<char>>|
                self.entries@[choose|i: int|
                    0 <= i < self.entries@.len() && path_view(self.entries@[i].0@) == k].1,
        )
    }

    /// The count of `k`, zero when it has none.
    pub open spec fn count_of(self, k: Seq<Seq<char>>) -> nat {
        if self.counts().contains_key(k) {
            self.counts()[k] as nat
        } else {
            0
        }
    }

    /// An empty tally.
    pub fn new() -> (t: TallyV1)
        ensures
            t.wf(),
            t.counts() == Map::<Seq<Seq<char>>, u64>::empty(),
    {
        let t = TallyV1 { entries: Vec::new() };
        assert(t.counts() =~= Map::<Seq<Seq<char>>, u64>::empty());
        t
    }

    proof fn lemma_entry(self, i: int)
        requires
            self.wf(),
            0 <= i < self.entries@.len(),
        ensures
            self.counts().contains_key(path_view(self.entries@[i].0@)),
            self.counts()[path_view(self.entries@[i].0@)] == self.entries@[i].1,
    {
        let k = path_view(self.entries@[i].0@);
        let j = choose|j: int| 0 <= j < self.entries@.len() && path_view(self.entries@[j].0@) == k;
        assert(j == i);
    }

    /// The position of `path`, if it has an entry.
    fn find(&self, path: &Vec<String>) -> (r: Option<usize>)
        requires
            self.wf(),
        ensures
            r is None <==> !self.counts().contains_key(path_view(path@)),
            r matches Some(i) ==> i < self.entries@.len() && path_view(self.entries@[i as int].0@)
                == path_view(path@),
    {
        let mut i: usize = 0;
        while i < self.entries.len()
            invariant
                self.wf(),
                i <= self.entries@.len(),
                forall|j: int|
                    0 <= j < i ==> path_view(#[trigger] self.entries@[j].0@) != path_view(path@),
            decreases self.entries@.len() - i,
        {
            if paths_equal(&self.entries[i].0, path) {
                return Some(i);
            }
            i = i + 1;
        }
        None
    }

    /// The count of `path` (zero when it has none).
    pub fn count(&self, path: &Vec<String>) -> (r: u64)
        requires
            self.wf(),
        ensures
            r == self.count_of(path_view(path@)),
    {
        match self.find(path) {
            Some(i) => {
                proof {
                    self.lemma_entry(i as int);
                }
                self.entries[i].1
            },
            None => 0,
        }
    }

    /// Adds `amount` to the count of `path`.
    pub fn add(&mut self, path: Vec<String>, amount: u64)
        requires
            old(self).wf(),
            old(self).count_of(path_view(path@)) + amount <= u64::MAX,
        ensures
            final(self).wf(),
            final(self).counts() == old(self).counts().insert(
                path_view(path@),
                (old(self).count_of(path_view(path@)) + amount) as u64,
            ),
    {
        let ghost before = *self;
        let ghost k = path_view(path@);
        match self.find(&path) {
            Some(i) => {
                proof {
                    before.lemma_entry(i as int);
                }
                let current = self.entries[i].1;
                let key = self.entries[i].0.clone();
                proof {
                    assert(path_view(key@) =~= path_view(before.entries@[i as int].0@));
                }
                self.entries.set(i, (key, current + amount));
                proof {
                    let n = self.entries@.len();
                    assert forall|a: int, b: int| 0 <= a < b < n implies path_lt(
                        path_view((#[trigger] self.entries@[a]).0@),
                        path_view((#[trigger] self.entries@[b]).0@),
                    ) by {
                        assert(path_view(self.entries@[a].0@) == path_view(before.entries@[a].0@));
                        assert(path_view(self.entries@[b].0@) == path_view(before.entries@[b].0@));
                        assert(path_lt(path_view(before.entries@[a].0@), path_view(before.entries@[b].0@)));
                    }
                    assert forall|a: int, b: int|
                        0 <= a < n && 0 <= b < n && a != b implies path_view(
                        (#[trigger] self.entries@[a]).0@,
                    ) != path_view((#[trigger] self.entries@[b]).0@) by {
                        assert(path_view(before.entries@[a].0@) != path_view(
                            before.entries@[b].0@,
                        ));
                    }
                    let expected = before.counts().insert(k, (before.count_of(k) + amount) as u64);
                    assert forall|x: Seq<Seq<char>>| #[trigger]
                        self.counts().contains_key(x) <==> expected.contains_key(x) by {
                        if expected.contains_key(x) && x != k {
                            let j = choose|j: int|
                                0 <= j < before.entries@.len() && path_view(before.entries@[j].0@)
                                    == x;
                            assert(path_view(self.entries@[j].0@) == x);
                        }
                        if x == k {
                            assert(path_view(self.entries@[i as int].0@) == x);
                        }
                        if self.counts().contains_key(x) {
                            let j = choose|j: int|
                                0 <= j < self.entries@.len() && path_view(self.entries@[j].0@)
                                    == x;
                            if j != i {
                                assert(path_view(before.entries@[j].0@) == x);
                            }
                        }
                    }
                    assert forall|x: Seq<Seq<char>>| #[trigger]
                        self.counts().contains_key(x) implies self.counts()[x] == expected[x] by {
                        let j = choose|j: int|
                            0 <= j < self.entries@.len() && path_view(self.entries@[j].0@) == x;
                        self.lemma_entry(j);
                        if j != i {
                            before.lemma_entry(j);
                        }
                    }
                    assert(self.counts() =~= expected);
                }
            },
            None => {
                let mut p: usize = 0;
                while p < self.entries.len()
                    invariant
                        self.entries@ == before.entries@,
                        k == path_view(path@),
                        p <= self.entries@.len(),
                        forall|q: int| 0 <= q < p ==> path_lt(path_view((#[trigger] self.entries@[q]).0@), k),
                    ensures
                        p < self.entries@.len() ==> !path_lt(path_view(self.entries@[p as int].0@), k),
                    decreases self.entries@.len() - p,
                {
                    if compare_paths(&self.entries[p].0, &path) >= 0 {
                        break;
                    }
                    p = p + 1;
                }
                proof {
                    assert forall|q: int| p <= q < before.entries@.len() implies path_lt(
                        k,
                        path_view((#[trigger] before.entries@[q]).0@),
                    ) by {
                        before.lemma_entry(p as int);
                        lemma_path_lt_order(path_view(before.entries@[p as int].0@), k, k);
                        if q > p {
                            assert(path_lt(path_view(before.entries@[p as int].0@), path_view(before.entries@[q].0@)));
                            lemma_path_lt_order(k, path_view(before.entries@[p as int].0@), path_view(before.entries@[q].0@));
                        }
                    }
                }
                self.entries.insert(p, (path, amount));
                proof {
                    let old_e = before.entries@;
                    let ne = self.entries@;
                    let n = ne.len();
                    assert forall|q: int| 0 <= q < n implies #[trigger] ne[q] == if q < p {
                        old_e[q]
                    } else if q == p {
                        ne[q]
                    } else {
                        old_e[q - 1]
                    } by {}
                    assert(path_view(ne[p as int].0@) == k);
                    assert(ne[p as int].1 == amount);
                    assert forall|x: int, y: int| 0 <= x < y < n implies path_lt(
                        path_view((#[trigger] ne[x]).0@),
                        path_view((#[trigger] ne[y]).0@),
                    ) by {
                        if y < p {
                            assert(path_lt(path_view(old_e[x].0@), path_view(old_e[y].0@)));
                        } else if y == p {
                            assert(path_lt(path_view(old_e[x].0@), k));
                        } else if x < p {
                            assert(path_lt(path_view(old_e[x].0@), k));
                            assert(path_lt(k, path_view(old_e[y - 1].0@)));
                            lemma_path_lt_order(path_view(old_e[x].0@), k, path_view(old_e[y - 1].0@));
                        } else if x == p {
                            assert(path_lt(k, path_view(old_e[y - 1].0@)));
                        } else {
                            assert(path_lt(path_view(old_e[x - 1].0@), path_view(old_e[y - 1].0@)));
                        }
                    }
                    assert forall|x: int, y: int|
                        0 <= x < n && 0 <= y < n && x != y implies path_view(
                        (#[trigger] ne[x]).0@,
                    ) != path_view((#[trigger] ne[y]).0@) by {
                        if x < y {
                            assert(path_lt(path_view(ne[x].0@), path_view(ne[y].0@)));
                            lemma_path_lt_order(path_view(ne[x].0@), path_view(ne[y].0@), path_view(ne[y].0@));
                        } else {
                            assert(path_lt(path_view(ne[y].0@), path_view(ne[x].0@)));
                            lemma_path_lt_order(path_view(ne[y].0@), path_view(ne[x].0@), path_view(ne[x].0@));
                        }
                    }
                    let expected = before.counts().insert(k, amount);
                    assert forall|x: Seq<Seq<char>>| #[trigger]
                        self.counts().contains_key(x) <==> expected.contains_key(x) by {
                        if expected.contains_key(x) && x != k {
                            let j = choose|j: int|
                                0 <= j < old_e.len() && path_view(old_e[j].0@) == x;
                            if j < p {
                                assert(path_view(ne[j].0@) == x);
                            } else {
                                assert(path_view(ne[j + 1].0@) == x);
                            }
                        }
                        if x == k {
                            assert(path_view(ne[p as int].0@) == x);
                        }
                        if self.counts().contains_key(x) {
                            let j = choose|j: int| 0 <= j < n && path_view(ne[j].0@) == x;
                            if j < p {
                                assert(path_view(old_e[j].0@) == x);
                            } else if j > p {
                                assert(path_view(old_e[j - 1].0@) == x);
                            }
                        }
                    }
                    assert forall|x: Seq<Seq<char>>| #[trigger]
                        self.counts().contains_key(x) implies self.counts()[x] == expected[x] by {
                        let j = choose|j: int| 0 <= j < n && path_view(ne[j].0@) == x;
                        self.lemma_entry(j);
                        if j < p {
                            before.lemma_entry(j);
                        } else if j > p {
                            before.lemma_entry(j - 1);
                        }
                    }
                    assert(self.counts() =~= expected);
                }
            },
        }
    }

    /// The entries, each path once, in ascending path order.
    pub fn entries(&self) -> (r: &Vec<(Vec<String>, u64)>)
        requires
            self.wf(),
        ensures
            r@.len() == self.counts().len(),
            forall|i: int, j: int|
                0 <= i < j < r@.len() ==> path_lt(
                    path_view((#[trigger] r@[i]).0@),
                    path_view((#[trigger] r@[j]).0@),
                ),
            forall|i: int, j: int|
                0 <= i < r@.len() && 0 <= j < r@.len() && i != j ==> path_view(
                    (#[trigger] r@[i]).0@,
                ) != path_view((#[trigger] r@[j]).0@),
            forall|i: int|
                0 <= i < r@.len() ==> #[trigger] self.counts().contains_key(path_view(r@[i].0@))
                    && self.counts()[path_view(r@[i].0@)] == r@[i].1,
    {
        proof {
            assert forall|i: int| 0 <= i < self.entries@.len() implies #[trigger] self.counts().contains_key(
                path_view(self.entries@[i].0@),
            ) && self.counts()[path_view(self.entries@[i].0@)] == self.entries@[i].1 by {
                self.lemma_entry(i);
            }
            self.lemma_len();
        }
        &self.entries
    }

    proof fn lemma_len(self)
        requires
            self.wf(),
        ensures
            self.counts().len() == self.entries@.len(),
        decreases self.entries@.len(),
    {
        let keys = self.entries@.map_values(|e: (Vec<String>, u64)| path_view(e.0@));
        assert(keys.no_duplicates()) by {
            assert forall|a: int, b: int|
                0 <= a < keys.len() && 0 <= b < keys.len() && a != b implies keys[a] != keys[b] by {
                assert(path_view(self.entries@[a].0@) != path_view(self.entries@[b].0@));
            }
        }
        assert(self.counts().dom() =~= keys.to_set()) by {
            assert forall|x: Seq<Seq<char>>| self.counts().dom().contains(x) implies keys.to_set().contains(x) by {
                let j = choose|j: int|
                    0 <= j < self.entries@.len() && path_view(self.entries@[j].0@) == x;
                assert(keys[j] == x);
            }
            assert forall|x: Seq<Seq<char>>| keys.to_set().contains(x) implies self.counts().dom().contains(x) by {
                let j = choose|j: int| 0 <= j < keys.len() && keys[j] == x;
                assert(path_view(self.entries@[j].0@) == x);
            }
        }
        keys.unique_seq_to_set();
    }
}

/// Whether two paths have the same names.
fn paths_equal(a: &Vec<String>, b: &Vec<String>) -> (r: bool)
    ensures
        r == (path_view(a@) == path_view(b@)),
{
    if a.len() != b.len() {
        assert(path_view(a@).len() != path_view(b@).len());
        return false;
    }
    let mut i: usize = 0;
    while i < a.len()
        invariant
            a@.len() == b@.len(),
            i <= a@.len(),
            forall|j: int| 0 <= j < i ==> (#[trigger] a@[j])@ == b@[j]@,
        decreases a@.len() - i,
    {
        if !text_eq(a[i].as_str(), b[i].as_str()) {
            assert(path_view(a@)[i as int] != path_view(b@)[i as int]);
            return false;
        }
        i = i + 1;
    }
    assert(path_view(a@) =~= path_view(b@));
    true
}

/// Adding to a tally raises the count of that path by the amount and
/// leaves every other path's count as it was.
pub proof fn law_add_counts_once(t: Map<Seq<Seq<char>>, u64>, k: Seq<Seq<char>>, before: nat, amount: u64, other: Seq<Seq<char>>)
    requires
        before == (if t.contains_key(k) { t[k] as nat } else { 0 }),
        before + amount <= u64::MAX,
        other != k,
    ensures
        t.insert(k, (before + amount) as u64)[k] == before + amount,
        t.insert(k, (before + amount) as u64).contains_key(other) == t.contains_key(other),
        t.contains_key(other) ==> t.insert(k, (before + amount) as u64)[other] == t[other],
{
}

/// The outcome of one attack: whether it hit and the damage it did.
#[derive(Clone, Copy, Debug, PartialEq, Eq)]
pub struct AttackOutcome {
    pub did_hit: bool,
    pub damage_done: u64,
}

/// The label an outcome is tallied under: the damage in decimal for a hit,
/// `miss` otherwise.
pub open spec fn outcome_label(o: AttackOutcome) -> Seq<char> {
    if o.did_hit {
        decimal(o.damage_done as nat)
    } else {
        "miss"@
    }
}

/// The label of `outcome`.
pub fn label_of(outcome: AttackOutcome) -> (r: String)
    ensures
        r@ == outcome_label(outcome),
{
    if outcome.did_hit {
        decimal_text(outcome.damage_done)
    } else {
        "miss".to_owned()
    }
}

/// The identifier of the basic auto-attack engine.
pub const BASIC_COMBAT_ENGINE_ID: &'static str = "rust-basic-combat";

/// The compatibility level the basic engine reports.
pub const BASIC_COMBAT_COMPATIBILITY_LEVEL: &'static str = "basic-auto-attack-v1";

/// The identifier of the direct-damage engine.
pub const DIRECT_DAMAGE_ENGINE_ID: &'static str = "rust-direct-damage";

/// The compatibility level the direct-damage engine reports.
pub const DIRECT_DAMAGE_COMPATIBILITY_LEVEL: &'static str = "direct-damage-cast-v1";

/// The attack type of an auto attack.
pub const AUTO_ATTACK: &'static str = "autoAttack";

/// The path an attack is tallied under.
pub open spec fn attack_path(
    source: Seq<char>,
    target: Seq<char>,
    attack_type: Seq<char>,
    o: AttackOutcome,
) -> Seq<Seq<char>> {
    seq![source, target, attack_type, outcome_label(o)]
}

fn path4(a: &str, b: &str, c: &str, d: String) -> (r: Vec<String>)
    ensures
        path_view(r@) == seq![a@, b@, c@, d@],
{
    let mut v: Vec<String> = Vec::new();
    v.push(a.to_owned());
    v.push(b.to_owned());
    v.push(c.to_owned());
    v.push(d);
    assert(path_view(v@) =~= seq![a@, b@, c@, d@]);
    v
}

fn path2(a: &str, b: &str) -> (r: Vec<String>)
    ensures
        path_view(r@) == seq![a@, b@],
{
    let mut v: Vec<String> = Vec::new();
    v.push(a.to_owned());
    v.push(b.to_owned());
    assert(path_view(v@) =~= seq![a@, b@]);
    v
}

fn path1(a: &str) -> (r: Vec<String>)
    ensures
        path_view(r@) == seq![a@],
{
    let mut v: Vec<String> = Vec::new();
    v.push(a.to_owned());
    assert(path_view(v@) =~= seq![a@]);
    v
}

/// The result of a basic auto-attack run.
#[derive(Clone, Debug)]
pub struct BasicCombatResultV1 {
    pub contract_version: u32,
    pub result_type: String,
    pub request_id: String,
    pub engine: String,
    pub engine_version: String,
    pub data_version: String,
    pub compatibility_level: String,
    pub zone_name: String,
    pub simulated_time: SimTime,
    pub encounters: u64,
    pub deaths: TallyV1,
    pub attacks: TallyV1,
    pub last_encounter_finish_time: SimTime,
    pub random_draws: u64,
    pub events_processed: u64,
}

impl BasicCombatResultV1 {
    /// The result before any event: it names the request, this engine and
    /// the data slice, and every count is zero.
    pub fn new(request: &SimulationRequestV1, data: &BasicGameData) -> (r: BasicCombatResultV1)
        ensures
            r.contract_version == request.contract_version,
            r.result_type@ == "basic_combat_result"@,
            r.request_id@ == request.request_id@,
            r.engine@ == BASIC_COMBAT_ENGINE_ID@,
            r.engine_version@ == ENGINE_VERSION@,
            r.data_version@ == data.data_version@,
            r.compatibility_level@ == BASIC_COMBAT_COMPATIBILITY_LEVEL@,
            r.zone_name@ == data.zone.hrid@,
            r.simulated_time@ == 0,
            r.encounters == 0,
            r.deaths.wf(),
            r.deaths.counts() == Map::<Seq<Seq<char>>, u64>::empty(),
            r.attacks.wf(),
            r.attacks.counts() == Map::<Seq<Seq<char>>, u64>::empty(),
            r.last_encounter_finish_time@ == 0,
            r.random_draws == 0,
            r.events_processed == 0,
    {
        BasicCombatResultV1 {
            contract_version: request.contract_version,
            result_type: "basic_combat_result".to_owned(),
            request_id: request.request_id.clone(),
            engine: BASIC_COMBAT_ENGINE_ID.to_owned(),
            engine_version: ENGINE_VERSION.to_owned(),
            data_version: data.data_version.clone(),
            compatibility_level: BASIC_COMBAT_COMPATIBILITY_LEVEL.to_owned(),
            zone_name: data.zone.hrid.clone(),
            simulated_time: SimTime::zero(),
            encounters: 0,
            deaths: TallyV1::new(),
            attacks: TallyV1::new(),
            last_encounter_finish_time: SimTime::zero(),
            random_draws: 0,
            events_processed: 0,
        }
    }

    /// Counts an auto attack of `source` on `target` under its outcome.
    pub fn record_attack(&mut self, source: &str, target: &str, outcome: AttackOutcome)
        requires
            old(self).attacks.wf(),
            old(self).attacks.count_of(attack_path(source@, target@, AUTO_ATTACK@, outcome))
                < u64::MAX,
        ensures
            final(self).attacks.wf(),
            final(self).attacks.counts() == old(self).attacks.counts().insert(
                attack_path(source@, target@, AUTO_ATTACK@, outcome),
                (old(self).attacks.count_of(attack_path(source@, target@, AUTO_ATTACK@, outcome))
                    + 1) as u64,
            ),
            *final(self) == (BasicCombatResultV1 { attacks: final(self).attacks, ..*old(self) }),
    {
        let path = path4(source, target, AUTO_ATTACK, label_of(outcome));
        self.attacks.add(path, 1);
    }

    /// Counts a death of `hrid`.
    pub fn record_death(&mut self, hrid: &str)
        requires
            old(self).deaths.wf(),
            old(self).deaths.count_of(seq![hrid@]) < u64::MAX,
        ensures
            final(self).deaths.wf(),
            final(self).deaths.counts() == old(self).deaths.counts().insert(
                seq![hrid@],
                (old(self).deaths.count_of(seq![hrid@]) + 1) as u64,
            ),
            *final(self) == (BasicCombatResultV1 { deaths: final(self).deaths, ..*old(self) }),
    {
        self.deaths.add(path1(hrid), 1);
    }
}

/// The result of a direct-damage run.
#[derive(Clone, Debug)]
pub struct DirectDamageCombatResultV1 {
    pub contract_version: u32,
    pub result_type: String,
    pub request_id: String,
    pub engine: String,
    pub engine_version: String,
    pub data_version: String,
    pub compatibility_level: String,
    pub zone_name: String,
    pub simulated_time: SimTime,
    pub encounters: u64,
    pub deaths: TallyV1,
    pub attacks: TallyV1,
    pub mana_used: TallyV1,
    pub last_encounter_finish_time: SimTime,
    pub random_draws: u64,
    pub events_processed: u64,
}

impl DirectDamageCombatResultV1 {
    /// The result before any event: it names the request, this engine, the
    /// data version and the Fly zone, and every count is zero.
    pub fn new(request: &SimulationRequestV1) -> (r: DirectDamageCombatResultV1)
        ensures
            r.contract_version == request.contract_version,
            r.result_type@ == "direct_damage_combat_result"@,
            r.request_id@ == request.request_id@,
            r.engine@ == DIRECT_DAMAGE_ENGINE_ID@,
            r.engine_version@ == ENGINE_VERSION@,
            r.data_version@ == BASIC_DATA_VERSION@,
            r.compatibility_level@ == DIRECT_DAMAGE_COMPATIBILITY_LEVEL@,
            r.zone_name@ == BASIC_FLY_ZONE_HRID@,
            r.simulated_time@ == 0,
            r.encounters == 0,
            r.deaths.wf(),
            r.deaths.counts() == Map::<Seq<Seq<char>>, u64>::empty(),
            r.attacks.wf(),
            r.attacks.counts() == Map::<Seq<Seq<char>>, u64>::empty(),
            r.mana_used.wf(),
            r.mana_used.counts() == Map::<Seq<Seq<char>>, u64>::empty(),
            r.last_encounter_finish_time@ == 0,
            r.random_draws == 0,
            r.events_processed == 0,
    {
        DirectDamageCombatResultV1 {
            contract_version: request.contract_version,
            result_type: "direct_damage_combat_result".to_owned(),
            request_id: request.request_id.clone(),
            engine: DIRECT_DAMAGE_ENGINE_ID.to_owned(),
            engine_version: ENGINE_VERSION.to_owned(),
            data_version: BASIC_DATA_VERSION.to_owned(),
            compatibility_level: DIRECT_DAMAGE_COMPATIBILITY_LEVEL.to_owned(),
            zone_name: BASIC_FLY_ZONE_HRID.to_owned(),
            simulated_time: SimTime::zero(),
            encounters: 0,
            deaths: TallyV1::new(),
            attacks: TallyV1::new(),
            mana_used: TallyV1::new(),
            last_encounter_finish_time: SimTime::zero(),
            random_draws: 0,
            events_processed: 0,
        }
    }

    /// Counts an attack of type `attack_type` (`autoAttack` or an ability)
    /// of `source` on `target` under its outcome.
    pub fn record_attack(
        &mut self,
        source: &str,
        target: &str,
        attack_type: &str,
        outcome: AttackOutcome,
    )
        requires
            old(self).attacks.wf(),
            old(self).attacks.count_of(attack_path(source@, target@, attack_type@, outcome))
                < u64::MAX,
        ensures
            final(self).attacks.wf(),
            final(self).attacks.counts() == old(self).attacks.counts().insert(
                attack_path(source@, target@, attack_type@, outcome),
                (old(self).attacks.count_of(attack_path(source@, target@, attack_type@, outcome))
                    + 1) as u64,
            ),
            *final(self) == (DirectDamageCombatResultV1 { attacks: final(self).attacks, ..*old(self) }),
    {
        let path = path4(source, target, attack_type, label_of(outcome));
        self.attacks.add(path, 1);
    }

    /// Counts a death of `hrid`.
    pub fn record_death(&mut self, hrid: &str)
        requires
            old(self).deaths.wf(),
            old(self).deaths.count_of(seq![hrid@]) < u64::MAX,
        ensures
            final(self).deaths.wf(),
            final(self).deaths.counts() == old(self).deaths.counts().insert(
                seq![hrid@],
                (old(self).deaths.count_of(seq![hrid@]) + 1) as u64,
            ),
            *final(self) == (DirectDamageCombatResultV1 { deaths: final(self).deaths, ..*old(self) }),
    {
        self.deaths.add(path1(hrid), 1);
    }

    /// Adds `amount` of mana spent by `source` on `ability`. The amount must
    /// be a finite, non-negative whole number; anything else is refused and
    /// nothing is counted. An amount of 2^64 or more counts as `u64::MAX`.
    pub fn record_mana_used(&mut self, source: &str, ability: &str, amount: &Number) -> (r: Result<
        (),
        SimError,
    >)
        requires
            old(self).mana_used.wf(),
            spec_whole_value(amount.bits) matches Some(v) ==> old(self).mana_used.count_of(
                seq![source@, ability@],
            ) + (if v > u64::MAX { u64::MAX as nat } else { v }) <= u64::MAX,
        ensures
            final(self).mana_used.wf(),
            *final(self) == (DirectDamageCombatResultV1 { mana_used: final(self).mana_used, ..*old(self) }),
            match spec_whole_value(amount.bits) {
                Some(v) => r is Ok && final(self).mana_used.counts() == old(
                    self,
                ).mana_used.counts().insert(
                    seq![source@, ability@],
                    (old(self).mana_used.count_of(seq![source@, ability@]) + (if v > u64::MAX {
                        u64::MAX as nat
                    } else {
                        v
                    })) as u64,
                ),
                None => r matches Err(e) && refusal(
                    CombatScope::DirectDamage,
                    e,
                    "mana cost for "@ + ability@ + " must be a non-negative integer"@,
                ) && final(self).mana_used == old(self).mana_used,
            },
    {
        match whole_value(amount.bits) {
            Some(v) => {
                self.mana_used.add(path2(source, ability), v);
                Ok(())
            },
            None => {
                let a = concat("mana cost for ", ability);
                Err(unsupported(CombatScope::DirectDamage, concat(a.as_str(), " must be a non-negative integer")))
            },
        }
    }
}

} // verus!
