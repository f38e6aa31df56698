//! The family registry: chip families keyed by name, their variants and
//! their deduplicated flash-algorithm sets, and the merge step that folds
//! one device's record into the registry.

use vstd::prelude::*;
use crate::algorithm::{AlgorithmModel, FlashAlgorithm};
use crate::model::{
    memories_bounded, spec_core_name, spec_select_flash_bounds, spec_select_ram, core_name,
    select_flash_bounds, select_ram, DeviceInfo, FlashRegion, MemoryInfo, MemoryRegion,
};
use crate::names::{lower, lower_eq};

verus! {

/// One chip variant of a family.
#[derive(Clone, Debug)]
pub struct Chip {
    pub name: String,
    /// The selected memory regions, RAM first where both slots are filled.
    pub memory_map: Vec<MemoryRegion>,
    /// Normalized names linking into the owning family's algorithm set.
    pub flash_algorithm_refs: Vec<String>,
}

/// The mathematical content of a chip record.
pub struct ChipModel {
    pub name: Seq<char>,
    pub memory_map: Seq<MemoryRegion>,
    pub flash_algorithm_refs: Seq<Seq<char>>,
}

impl View for Chip {
    type V = ChipModel;

    open spec fn view(&self) -> ChipModel {
        ChipModel {
            name: self.name@,
            memory_map: self.memory_map@,
            flash_algorithm_refs: self.flash_algorithm_refs.deep_view(),
        }
    }
}

impl DeepView for Chip {
    type V = ChipModel;

    open spec fn deep_view(&self) -> ChipModel {
        self.view()
    }
}

/// One chip family: the unit of output.
#[derive(Clone, Debug)]
pub struct ChipFamily {
    /// The registry key.
    pub name: String,
    /// Core identifier of the family, taken from the first device seen.
    pub core: String,
    /// Algorithm records, unique by normalized name; first occurrence wins.
    pub flash_algorithms: Vec<FlashAlgorithm>,
    /// Chip variants in processing order.
    pub variants: Vec<Chip>,
}

/// The mathematical content of a family record.
pub struct FamilyModel {
    pub name: Seq<char>,
    pub core: Seq<char>,
    pub algorithms: Seq<AlgorithmModel>,
    pub variants: Seq<ChipModel>,
}

impl View for ChipFamily {
    type V = FamilyModel;

    open spec fn view(&self) -> FamilyModel {
        FamilyModel {
            name: self.name@,
            core: self.core@,
            algorithms: self.flash_algorithms.deep_view(),
            variants: self.variants.deep_view(),
        }
    }
}

impl DeepView for ChipFamily {
    type V = FamilyModel;

    open spec fn deep_view(&self) -> FamilyModel {
        self.view()
    }
}

/// Some algorithm of `s` has the normalized name `n`.
pub open spec fn has_algo_named(s: Seq<AlgorithmModel>, n: Seq<char>) -> bool {
    exists|i: int| 0 <= i < s.len() && lower(#[trigger] s[i].name) == n
}

/// Folds `add` into `cur` in order, dropping any algorithm whose normalized
/// name is already present (first occurrence wins).
pub open spec fn spec_merge_algos(cur: Seq<AlgorithmModel>, add: Seq<AlgorithmModel>) -> Seq<
    AlgorithmModel,
>
    decreases add.len(),
{
    if add.len() == 0 {
        cur
    } else {
        let grown = if has_algo_named(cur, lower(add[0].name)) {
            cur
        } else {
            cur.push(add[0])
        };
        spec_merge_algos(grown, add.skip(1))
    }
}

/// The normalized names of a device's extracted algorithms, in order: the
/// references stored on its chip record.
pub open spec fn algo_ref_names(algos: Seq<AlgorithmModel>) -> Seq<Seq<char>> {
    algos.map_values(|a: AlgorithmModel| lower(a.name))
}

/// The first family of the registry named `name`, from index `i` on.
pub open spec fn spec_find_family(r: Seq<FamilyModel>, name: Seq<char>, i: int) -> Option<int>
    decreases r.len() - i,
{
    if !(0 <= i < r.len()) {
        None
    } else if r[i].name == name {
        Some(i)
    } else {
        spec_find_family(r, name, i + 1)
    }
}

/// How one device's record changes the registry: a new chip is appended to
/// its family's variants and the device's algorithms are merged into the
/// family's set; an unknown family is created at the end of the registry
/// with the device's core identifier.
pub open spec fn spec_add_device(
    r: Seq<FamilyModel>,
    device_name: Seq<char>,
    family_name: Seq<char>,
    core: Seq<char>,
    memory_map: Seq<MemoryRegion>,
    algos: Seq<AlgorithmModel>,
) -> Seq<FamilyModel> {
    let chip = ChipModel { name: device_name, memory_map, flash_algorithm_refs: algo_ref_names(algos) };
    match spec_find_family(r, family_name, 0) {
        Some(i) => r.update(
            i,
            FamilyModel {
                name: r[i].name,
                core: r[i].core,
                algorithms: spec_merge_algos(r[i].algorithms, algos),
                variants: r[i].variants.push(chip),
            },
        ),
        None => r.push(
            FamilyModel {
                name: family_name,
                core,
                algorithms: spec_merge_algos(Seq::empty(), algos),
                variants: seq![chip],
            },
        ),
    }
}

/// `add[k]` is an algorithm that the merge of `add` into `cur` keeps: its
/// normalized name is neither present in `cur` nor earlier in `add`.
pub open spec fn included(cur: Seq<AlgorithmModel>, add: Seq<AlgorithmModel>, k: int) -> bool {
    &&& 0 <= k < add.len()
    &&& !has_algo_named(cur, lower(add[k].name))
    &&& forall|j: int| 0 <= j < k ==> lower(#[trigger] add[j].name) != lower(add[k].name)
}

pub proof fn lemma_has_named_push(cur: Seq<AlgorithmModel>, y: AlgorithmModel, n: Seq<char>)
    ensures
        has_algo_named(cur.push(y), n) <==> (has_algo_named(cur, n) || lower(y.name) == n),
{
    if has_algo_named(cur, n) {
        let i = choose|i: int| 0 <= i < cur.len() && lower(#[trigger] cur[i].name) == n;
        assert(cur.push(y)[i] == cur[i]);
        assert(lower(cur.push(y)[i].name) == n);
    }
    if lower(y.name) == n {
        assert(cur.push(y)[cur.len() as int] == y);
        assert(lower(cur.push(y)[cur.len() as int].name) == n);
    }
    if has_algo_named(cur.push(y), n) {
        let i = choose|i: int| 0 <= i < cur.push(y).len() && lower(#[trigger] cur.push(y)[i].name)
            == n;
        if i < cur.len() {
            assert(lower(cur[i].name) == n);
        }
    }
}

/// The names present after a merge are exactly those of the two inputs.
pub proof fn lemma_merge_names(cur: Seq<AlgorithmModel>, add: Seq<AlgorithmModel>, n: Seq<char>)
    ensures
        has_algo_named(spec_merge_algos(cur, add), n) <==> (has_algo_named(cur, n)
            || has_algo_named(add, n)),
    decreases add.len(),
{
    if add.len() == 0 {
    } else {
        let n0 = lower(add[0].name);
        let grown = if has_algo_named(cur, n0) {
            cur
        } else {
            cur.push(add[0])
        };
        lemma_has_named_push(cur, add[0], n);
        lemma_merge_names(grown, add.skip(1), n);
        assert(add.skip(1).len() == add.len() - 1);
        if has_algo_named(add, n) {
            let i = choose|i: int| 0 <= i < add.len() && lower(#[trigger] add[i].name) == n;
            if i == 0 {
                assert(n == n0);
                if has_algo_named(cur, n0) {
                } else {
                    assert(lower(grown[cur.len() as int].name) == n);
                }
            } else {
                assert(add.skip(1)[i - 1] == add[i]);
                assert(has_algo_named(add.skip(1), n));
            }
        }
        if has_algo_named(add.skip(1), n) {
            let i = choose|i: int|
                0 <= i < add.skip(1).len() && lower(#[trigger] add.skip(1)[i].name) == n;
            assert(add[i + 1] == add.skip(1)[i]);
            assert(has_algo_named(add, n));
        }
        if n == n0 && !has_algo_named(cur, n0) {
            assert(has_algo_named(grown, n));
        }
    }
}

/// What a merge holds: the algorithms of `cur`, plus those of `add` whose
/// normalized name is new and not repeated earlier in `add`.
pub proof fn lemma_merge_contents(cur: Seq<AlgorithmModel>, add: Seq<AlgorithmModel>)
    ensures
        forall|x: AlgorithmModel|
            #[trigger] spec_merge_algos(cur, add).contains(x) <==> (cur.contains(x) || exists|k: int|
                #[trigger] included(cur, add, k) && add[k] == x),
    decreases add.len(),
{
    if add.len() == 0 {
    } else {
        let n0 = lower(add[0].name);
        let kept0 = !has_algo_named(cur, n0);
        let grown = if kept0 {
            cur.push(add[0])
        } else {
            cur
        };
        let add1 = add.skip(1);
        lemma_merge_contents(grown, add1);
        assert forall|x: AlgorithmModel|
            #[trigger] spec_merge_algos(cur, add).contains(x) implies (cur.contains(x) || exists|
            k: int,
        |
            #[trigger] included(cur, add, k) && add[k] == x) by {
            assert(spec_merge_algos(grown, add1).contains(x));
            if grown.contains(x) {
                if kept0 {
                    let i = choose|i: int| 0 <= i < grown.len() && grown[i] == x;
                    if i < cur.len() {
                        assert(cur.contains(x));
                    } else {
                        assert(x == add[0]);
                        assert(included(cur, add, 0));
                    }
                } else {
                    assert(cur.contains(x));
                }
            } else {
                let k1 = choose|k1: int| #[trigger] included(grown, add1, k1) && add1[k1] == x;
                let nk = lower(add1[k1].name);
                lemma_has_named_push(cur, add[0], nk);
                assert(add[k1 + 1] == add1[k1]);
                assert forall|j: int| 0 <= j < k1 + 1 implies lower(#[trigger] add[j].name)
                    != lower(add[k1 + 1].name) by {
                    if j == 0 {
                        if kept0 {
                            assert(!has_algo_named(grown, nk));
                            assert(lower(add[0].name) != nk);
                        } else {
                            if lower(add[0].name) == nk {
                                assert(has_algo_named(cur, nk));
                                assert(has_algo_named(grown, nk));
                            }
                        }
                    } else {
                        assert(add1[j - 1] == add[j]);
                    }
                }
                assert(included(cur, add, k1 + 1));
            }
        }
        assert forall|x: AlgorithmModel|
            (cur.contains(x) || exists|k: int| #[trigger] included(cur, add, k) && add[k] == x)
            implies #[trigger] spec_merge_algos(cur, add).contains(x) by {
            assert(spec_merge_algos(cur, add) == spec_merge_algos(grown, add1));
            if cur.contains(x) {
                let i = choose|i: int| 0 <= i < cur.len() && cur[i] == x;
                assert(grown[i] == x);
                assert(grown.contains(x));
                assert(spec_merge_algos(grown, add1).contains(x));
            } else {
                let k = choose|k: int| #[trigger] included(cur, add, k) && add[k] == x;
                if k == 0 {
                    assert(kept0);
                    assert(grown[cur.len() as int] == add[0]);
                    assert(grown.contains(x));
                    assert(spec_merge_algos(grown, add1).contains(x));
                } else {
                    let nk = lower(add[k].name);
                    lemma_has_named_push(cur, add[0], nk);
                    assert(lower(add[0].name) != nk);
                    assert(!has_algo_named(grown, nk));
                    assert(add1[k - 1] == add[k]);
                    assert forall|j: int| 0 <= j < k - 1 implies lower(#[trigger] add1[j].name)
                        != lower(add1[k - 1].name) by {
                        assert(add1[j] == add[j + 1]);
                    }
                    assert(included(grown, add1, k - 1));
                    assert(spec_merge_algos(grown, add1).contains(x));
                }
            }
        }
    }
}

/// The two lists agree wherever their normalized names collide: equal names
/// mean equal records, across the lists and inside each.
pub open spec fn compatible_algos(a1: Seq<AlgorithmModel>, a2: Seq<AlgorithmModel>) -> bool {
    forall|i: int, j: int|
        0 <= i < a1.len() && 0 <= j < a2.len() && lower(#[trigger] a1[i].name) == lower(
            #[trigger] a2[j].name,
        ) ==> a1[i] == a2[j]
}

/// Some algorithm of `s` has name `n`, and among those the one at the least
/// index exists.
pub proof fn lemma_first_named(s: Seq<AlgorithmModel>, n: Seq<char>)
    requires
        has_algo_named(s, n),
    ensures
        exists|k: int|
            0 <= k < s.len() && lower(#[trigger] s[k].name) == n && (forall|j: int|
                0 <= j < k ==> lower(#[trigger] s[j].name) != n),
    decreases s.len(),
{
    if lower(s[0].name) == n {
        assert(0 <= 0 < s.len() && lower(s[0].name) == n && (forall|j: int|
            0 <= j < 0 ==> lower(#[trigger] s[j].name) != n));
    } else {
        let i = choose|i: int| 0 <= i < s.len() && lower(#[trigger] s[i].name) == n;
        assert(s.skip(1)[i - 1] == s[i]);
        assert(has_algo_named(s.skip(1), n));
        lemma_first_named(s.skip(1), n);
        let k1 = choose|k1: int|
            0 <= k1 < s.skip(1).len() && lower(#[trigger] s.skip(1)[k1].name) == n && (forall|
                j: int,
            |
                0 <= j < k1 ==> lower(#[trigger] s.skip(1)[j].name) != n);
        assert(s[k1 + 1] == s.skip(1)[k1]);
        assert forall|j: int| 0 <= j < k1 + 1 implies lower(#[trigger] s[j].name) != n by {
            if j > 0 {
                assert(s.skip(1)[j - 1] == s[j]);
            }
        }
        assert(0 <= k1 + 1 < s.len() && lower(s[k1 + 1].name) == n && (forall|j: int|
            0 <= j < k1 + 1 ==> lower(#[trigger] s[j].name) != n));
    }
}

/// One direction of merge commutativity: every algorithm kept when `a1` is
/// folded in before `a2` is also kept in the other order.
pub proof fn lemma_merge_commute_subset(
    base: Seq<AlgorithmModel>,
    a1: Seq<AlgorithmModel>,
    a2: Seq<AlgorithmModel>,
)
    requires
        compatible_algos(a1, a2),
    ensures
        forall|x: AlgorithmModel|
            #[trigger] spec_merge_algos(spec_merge_algos(base, a1), a2).contains(x)
                ==> spec_merge_algos(spec_merge_algos(base, a2), a1).contains(x),
{
    let m1 = spec_merge_algos(base, a1);
    let m2 = spec_merge_algos(base, a2);
    lemma_merge_contents(base, a1);
    lemma_merge_contents(base, a2);
    lemma_merge_contents(m1, a2);
    lemma_merge_contents(m2, a1);
    assert forall|x: AlgorithmModel|
        #[trigger] spec_merge_algos(m1, a2).contains(x) implies spec_merge_algos(
        m2,
        a1,
    ).contains(x) by {
        if m1.contains(x) {
            if base.contains(x) {
                assert(m2.contains(x));
            } else {
                let k1 = choose|k1: int| #[trigger] included(base, a1, k1) && a1[k1] == x;
                let n = lower(a1[k1].name);
                if has_algo_named(m2, n) {
                    lemma_merge_names(base, a2, n);
                    assert(has_algo_named(a2, n));
                    lemma_first_named(a2, n);
                    let j = choose|j: int|
                        0 <= j < a2.len() && lower(#[trigger] a2[j].name) == n && (forall|l: int|
                            0 <= l < j ==> lower(#[trigger] a2[l].name) != n);
                    assert(included(base, a2, j));
                    assert(m2.contains(a2[j]));
                    assert(a2[j] == a1[k1]);
                    assert(m2.contains(x));
                } else {
                    assert(included(m2, a1, k1)) by {
                        lemma_merge_names(base, a2, n);
                    }
                    assert(spec_merge_algos(m2, a1).contains(x));
                }
            }
        } else {
            let k2 = choose|k2: int| #[trigger] included(m1, a2, k2) && a2[k2] == x;
            let n = lower(a2[k2].name);
            lemma_merge_names(base, a1, n);
            assert(!has_algo_named(base, n));
            assert(included(base, a2, k2));
            assert(m2.contains(x));
        }
    }
}

/// Folding the two algorithm lists of one family's two devices in either
/// order yields the same set of algorithm records, provided the lists agree
/// wherever their normalized names collide. (Under first-wins dedup the two
/// orders genuinely differ when the lists carry different records under one
/// name, so such inputs are excluded.)
pub proof fn lemma_merge_algos_commute(
    base: Seq<AlgorithmModel>,
    a1: Seq<AlgorithmModel>,
    a2: Seq<AlgorithmModel>,
)
    requires
        compatible_algos(a1, a2),
    ensures
        spec_merge_algos(spec_merge_algos(base, a1), a2).to_set() == spec_merge_algos(
            spec_merge_algos(base, a2),
            a1,
        ).to_set(),
{
    lemma_merge_commute_subset(base, a1, a2);
    assert(compatible_algos(a2, a1)) by {
        assert forall|i: int, j: int|
            0 <= i < a2.len() && 0 <= j < a1.len() && lower(#[trigger] a2[i].name) == lower(
                #[trigger] a1[j].name,
            ) implies a2[i] == a1[j] by {
            assert(a1[j] == a2[i]);
        }
    }
    lemma_merge_commute_subset(base, a2, a1);
    assert(spec_merge_algos(spec_merge_algos(base, a1), a2).to_set() =~= spec_merge_algos(
        spec_merge_algos(base, a2),
        a1,
    ).to_set());
}

/// A family with name `n` exists in the registry.
pub open spec fn family_named(r: Seq<FamilyModel>, n: Seq<char>) -> bool {
    exists|j: int| 0 <= j < r.len() && #[trigger] r[j].name == n
}

/// Family names are unique in the registry.
pub open spec fn registry_wf(r: Seq<FamilyModel>) -> bool {
    forall|i: int, j: int| 0 <= i < j < r.len() ==> #[trigger] r[i].name != #[trigger] r[j].name
}

pub proof fn lemma_find_family_props(r: Seq<FamilyModel>, name: Seq<char>, i: int, j: int)
    requires
        spec_find_family(r, name, i) == Some(j),
    ensures
        i <= j < r.len(),
        r[j].name == name,
        forall|k: int| i <= k < j ==> #[trigger] r[k].name != name,
    decreases r.len() - i,
{
    if 0 <= i < r.len() && r[i].name != name {
        lemma_find_family_props(r, name, i + 1, j);
    }
}

/// The first family with a given name is the one the search finds.
pub proof fn lemma_find_family_at(r: Seq<FamilyModel>, name: Seq<char>, i: int, j: int)
    requires
        0 <= i <= j < r.len(),
        r[j].name == name,
        forall|k: int| i <= k < j ==> #[trigger] r[k].name != name,
    ensures
        spec_find_family(r, name, i) == Some(j),
    decreases r.len() - i,
{
    if i < j {
        lemma_find_family_at(r, name, i + 1, j);
    }
}

pub proof fn lemma_find_family_none(r: Seq<FamilyModel>, name: Seq<char>, i: int)
    requires
        0 <= i,
        spec_find_family(r, name, i) is None,
    ensures
        forall|k: int| i <= k < r.len() ==> #[trigger] r[k].name != name,
    decreases r.len() - i,
{
    if 0 <= i < r.len() && r[i].name != name {
        lemma_find_family_none(r, name, i + 1);
    }
}

/// Folding a device into the registry keeps family names unique, keeps every
/// family that existed, makes the device's family present, and grows the
/// registry by one family exactly when the device's family was new.
pub proof fn lemma_add_device_registry(
    r: Seq<FamilyModel>,
    device_name: Seq<char>,
    family_name: Seq<char>,
    core: Seq<char>,
    memory_map: Seq<MemoryRegion>,
    algos: Seq<AlgorithmModel>,
)
    requires
        registry_wf(r),
    ensures
        ({
            let r2 = spec_add_device(r, device_name, family_name, core, memory_map, algos);
            &&& registry_wf(r2)
            &&& family_named(r2, family_name)
            &&& (forall|n: Seq<char>| family_named(r, n) ==> family_named(r2, n))
            &&& r2.len() == if spec_find_family(r, family_name, 0) is Some {
                r.len() as int
            } else {
                (r.len() + 1) as int
            }
        }),
{
    let r2 = spec_add_device(r, device_name, family_name, core, memory_map, algos);
    match spec_find_family(r, family_name, 0) {
        Some(i) => {
            lemma_find_family_props(r, family_name, 0, i);
            assert(forall|k: int| 0 <= k < r.len() ==> r2[k].name == r[k].name);
            assert(r2[i].name == family_name);
            assert forall|n: Seq<char>| family_named(r, n) implies family_named(r2, n) by {
                let j = choose|j: int| 0 <= j < r.len() && #[trigger] r[j].name == n;
                assert(r2[j].name == n);
            }
        },
        None => {
            lemma_find_family_none(r, family_name, 0);
            assert(r2[r.len() as int].name == family_name);
            assert forall|n: Seq<char>| family_named(r, n) implies family_named(r2, n) by {
                let j = choose|j: int| 0 <= j < r.len() && #[trigger] r[j].name == n;
                assert(r2[j].name == n);
            }
        },
    }
}

/// Aggregating two devices of the same family in either order yields the
/// same registry except possibly inside that family's record, whose
/// algorithm set is the same set and whose variant list the same multiset
/// either way. The hypothesis excludes the inputs on which first-wins
/// dedup genuinely differs: two different records under one normalized
/// name.
pub proof fn lemma_aggregation_commutes(
    r: Seq<FamilyModel>,
    fam: Seq<char>,
    name1: Seq<char>,
    core1: Seq<char>,
    mm1: Seq<MemoryRegion>,
    a1: Seq<AlgorithmModel>,
    name2: Seq<char>,
    core2: Seq<char>,
    mm2: Seq<MemoryRegion>,
    a2: Seq<AlgorithmModel>,
)
    requires
        registry_wf(r),
        compatible_algos(a1, a2),
    ensures
        ({
            let ra = spec_add_device(
                spec_add_device(r, name1, fam, core1, mm1, a1),
                name2,
                fam,
                core2,
                mm2,
                a2,
            );
            let rb = spec_add_device(
                spec_add_device(r, name2, fam, core2, mm2, a2),
                name1,
                fam,
                core1,
                mm1,
                a1,
            );
            let fi = match spec_find_family(r, fam, 0) {
                Some(i) => i,
                None => r.len() as int,
            };
            &&& ra.len() == rb.len()
            &&& (forall|k: int| 0 <= k < ra.len() && k != fi ==> ra[k] == rb[k])
            &&& ra[fi].name == fam
            &&& rb[fi].name == fam
            &&& ra[fi].algorithms.to_set() == rb[fi].algorithms.to_set()
            &&& ra[fi].variants.to_multiset() == rb[fi].variants.to_multiset()
        }),
{
    let c1 = ChipModel { name: name1, memory_map: mm1, flash_algorithm_refs: algo_ref_names(a1) };
    let c2 = ChipModel { name: name2, memory_map: mm2, flash_algorithm_refs: algo_ref_names(a2) };
    let r1 = spec_add_device(r, name1, fam, core1, mm1, a1);
    let r2 = spec_add_device(r, name2, fam, core2, mm2, a2);
    let ra = spec_add_device(r1, name2, fam, core2, mm2, a2);
    let rb = spec_add_device(r2, name1, fam, core1, mm1, a1);
    match spec_find_family(r, fam, 0) {
        Some(i) => {
            lemma_find_family_props(r, fam, 0, i);
            assert(forall|k: int| 0 <= k < i ==> #[trigger] r1[k].name == r[k].name);
            assert(forall|k: int| 0 <= k < i ==> #[trigger] r2[k].name == r[k].name);
            assert(r1[i].name == fam);
            assert(r2[i].name == fam);
            lemma_find_family_at(r1, fam, 0, i);
            lemma_find_family_at(r2, fam, 0, i);
            lemma_merge_algos_commute(r[i].algorithms, a1, a2);
            let v = r[i].variants;
            v.to_multiset_ensures();
            v.push(c1).to_multiset_ensures();
            v.push(c2).to_multiset_ensures();
            assert(ra[i].variants == v.push(c1).push(c2));
            assert(rb[i].variants == v.push(c2).push(c1));
            assert(v.push(c1).push(c2).to_multiset() =~= v.to_multiset().insert(c1).insert(c2));
            assert(v.push(c2).push(c1).to_multiset() =~= v.to_multiset().insert(c2).insert(c1));
            assert(v.to_multiset().insert(c1).insert(c2) =~= v.to_multiset().insert(c2).insert(
                c1,
            ));
        },
        None => {
            lemma_find_family_none(r, fam, 0);
            let n = r.len() as int;
            assert(r1[n].name == fam);
            assert(r2[n].name == fam);
            assert(forall|k: int| 0 <= k < n ==> #[trigger] r1[k].name == r[k].name);
            assert(forall|k: int| 0 <= k < n ==> #[trigger] r2[k].name == r[k].name);
            lemma_find_family_at(r1, fam, 0, n);
            lemma_find_family_at(r2, fam, 0, n);
            lemma_merge_algos_commute(Seq::empty(), a1, a2);
            assert(seq![c1] =~= Seq::<ChipModel>::empty().push(c1));
            assert(seq![c2] =~= Seq::<ChipModel>::empty().push(c2));
            Seq::<ChipModel>::empty().to_multiset_ensures();
            Seq::<ChipModel>::empty().push(c1).to_multiset_ensures();
            Seq::<ChipModel>::empty().push(c2).to_multiset_ensures();
            assert(ra[n].variants == seq![c1].push(c2));
            assert(rb[n].variants == seq![c2].push(c1));
            assert(seq![c1].push(c2).to_multiset() =~= Seq::<
                ChipModel,
            >::empty().to_multiset().insert(c1).insert(c2));
            assert(seq![c2].push(c1).to_multiset() =~= Seq::<
                ChipModel,
            >::empty().to_multiset().insert(c2).insert(c1));
            assert(Seq::<ChipModel>::empty().to_multiset().insert(c1).insert(c2) =~= Seq::<
                ChipModel,
            >::empty().to_multiset().insert(c2).insert(c1));
            assert(forall|k: int| 0 <= k < n ==> #[trigger] ra[k] == rb[k]);
        },
    }
}

/// The page size a device's flash region takes from its algorithm list: that
/// of the last algorithm, or zero when there is none.
pub open spec fn spec_flash_page(algos: Seq<AlgorithmModel>) -> int {
    if algos.len() == 0 {
        0
    } else {
        algos.last().page_size
    }
}

/// The sector size a device's flash region takes from its algorithm list:
/// the first tier of the last algorithm, or zero when there is none.
pub open spec fn spec_flash_sector(algos: Seq<AlgorithmModel>) -> int {
    if algos.len() == 0 {
        0
    } else if algos.last().sectors.len() == 0 {
        0
    } else {
        algos.last().sectors[0].size as int
    }
}

/// The erased-byte value a device's flash region takes from its algorithm
/// list: that of the last algorithm, or the conventional fill otherwise.
pub open spec fn spec_flash_erased(algos: Seq<AlgorithmModel>) -> u8 {
    if algos.len() == 0 {
        0xFF
    } else {
        algos.last().erased_byte_value
    }
}

/// The memory map a device record carries: its selected RAM region, then its
/// selected Flash region carrying the geometry of the extracted algorithms.
/// A slot with no candidate is simply absent, never fabricated.
pub open spec fn spec_device_memory_map(
    mems: Seq<MemoryInfo>,
    algos: Seq<AlgorithmModel>,
) -> Seq<MemoryRegion> {
    let ram = match spec_select_ram(mems) {
        Some(rr) => seq![MemoryRegion::Ram(rr)],
        None => Seq::empty(),
    };
    let flash = match spec_select_flash_bounds(mems) {
        Some(m) => seq![
            MemoryRegion::Flash(
                FlashRegion {
                    start: m.start,
                    end: (m.start + m.size) as u32,
                    is_boot: m.is_startup,
                    page_size: spec_flash_page(algos) as u32,
                    sector_size: spec_flash_sector(algos) as u32,
                    erased_byte_value: spec_flash_erased(algos),
                },
            ),
        ],
        None => Seq::empty(),
    };
    ram + flash
}

/// Merging only appends: every algorithm the set already had stays, in
/// place.
pub proof fn lemma_merge_algos_prefix(cur: Seq<AlgorithmModel>, add: Seq<AlgorithmModel>)
    ensures
        spec_merge_algos(cur, add).len() >= cur.len(),
        forall|i: int| 0 <= i < cur.len() ==> #[trigger] spec_merge_algos(cur, add)[i] == cur[i],
    decreases add.len(),
{
    if add.len() > 0 {
        let grown = if has_algo_named(cur, lower(add[0].name)) {
            cur
        } else {
            cur.push(add[0])
        };
        lemma_merge_algos_prefix(grown, add.skip(1));
    }
}

/// One device's merge only appends: every family keeps its name and its
/// core, and every variant and algorithm entry the registry held stays at
/// its index; the device's family gains exactly one variant at the end.
pub proof fn lemma_add_device_append_only(
    r: Seq<FamilyModel>,
    device_name: Seq<char>,
    family_name: Seq<char>,
    core: Seq<char>,
    memory_map: Seq<MemoryRegion>,
    algos: Seq<AlgorithmModel>,
)
    ensures
        ({
            let r2 = spec_add_device(r, device_name, family_name, core, memory_map, algos);
            &&& r2.len() >= r.len()
            &&& forall|k: int|
                0 <= k < r.len() ==> {
                    let f2 = #[trigger] r2[k];
                    let f = r[k];
                    &&& f2.name == f.name
                    &&& f2.core == f.core
                    &&& f.variants.is_prefix_of(f2.variants)
                    &&& f.algorithms.is_prefix_of(f2.algorithms)
                }
        }),
{
    let r2 = spec_add_device(r, device_name, family_name, core, memory_map, algos);
    match spec_find_family(r, family_name, 0) {
        Some(i) => {
            lemma_find_family_props(r, family_name, 0, i);
            lemma_merge_algos_prefix(r[i].algorithms, algos);
            assert forall|k: int| 0 <= k < r.len() implies {
                let f2 = #[trigger] r2[k];
                let f = r[k];
                &&& f2.name == f.name
                &&& f2.core == f.core
                &&& f.variants.is_prefix_of(f2.variants)
                &&& f.algorithms.is_prefix_of(f2.algorithms)
            } by {
                if k == i {
                    assert(r[i].variants =~= r2[i].variants.subrange(0, r[i].variants.len() as int));
                    assert(r[i].algorithms =~= r2[i].algorithms.subrange(
                        0,
                        r[i].algorithms.len() as int,
                    ));
                } else {
                    assert(r2[k] == r[k]);
                    assert(r[k].variants =~= r2[k].variants.subrange(
                        0,
                        r[k].variants.len() as int,
                    ));
                    assert(r[k].algorithms =~= r2[k].algorithms.subrange(
                        0,
                        r[k].algorithms.len() as int,
                    ));
                }
            }
        },
        None => {
            assert forall|k: int| 0 <= k < r.len() implies {
                let f2 = #[trigger] r2[k];
                let f = r[k];
                &&& f2.name == f.name
                &&& f2.core == f.core
                &&& f.variants.is_prefix_of(f2.variants)
                &&& f.algorithms.is_prefix_of(f2.algorithms)
            } by {
                assert(r2[k] == r[k]);
                assert(r[k].variants =~= r2[k].variants.subrange(0, r[k].variants.len() as int));
                assert(r[k].algorithms =~= r2[k].algorithms.subrange(
                    0,
                    r[k].algorithms.len() as int,
                ));
            }
        },
    }
}

/// The registry after folding a device list in, left to right: device `i`
/// is merged with the algorithm list `algoss[i]`.
pub open spec fn spec_fold_devices(
    r: Seq<FamilyModel>,
    devs: Seq<DeviceInfo>,
    algoss: Seq<Seq<AlgorithmModel>>,
) -> Seq<FamilyModel>
    decreases devs.len(),
{
    if devs.len() == 0 {
        r
    } else {
        spec_fold_devices(
            spec_add_device(
                r,
                devs[0].name@,
                devs[0].family@,
                spec_core_name(devs[0].processor),
                spec_device_memory_map(devs[0].memories@, algoss[0]),
                algoss[0],
            ),
            devs.skip(1),
            algoss.skip(1),
        )
    }
}

/// Extending a fold by one device at the end merges that device into the
/// folded registry.
pub proof fn lemma_fold_devices_snoc(
    r: Seq<FamilyModel>,
    devs: Seq<DeviceInfo>,
    algoss: Seq<Seq<AlgorithmModel>>,
    d: DeviceInfo,
    a: Seq<AlgorithmModel>,
)
    requires
        devs.len() == algoss.len(),
    ensures
        spec_fold_devices(r, devs.push(d), algoss.push(a)) == spec_add_device(
            spec_fold_devices(r, devs, algoss),
            d.name@,
            d.family@,
            spec_core_name(d.processor),
            spec_device_memory_map(d.memories@, a),
            a,
        ),
    decreases devs.len(),
{
    reveal_with_fuel(spec_fold_devices, 3);
    if devs.len() == 0 {
        assert(devs.push(d)[0] == d);
        assert(algoss.push(a)[0] == a);
        assert(devs.push(d).skip(1) =~= Seq::<DeviceInfo>::empty());
        assert(algoss.push(a).skip(1) =~= Seq::<Seq<AlgorithmModel>>::empty());
    } else {
        assert(devs.push(d)[0] == devs[0]);
        assert(algoss.push(a)[0] == algoss[0]);
        assert(devs.push(d).skip(1) =~= devs.skip(1).push(d));
        assert(algoss.push(a).skip(1) =~= algoss.skip(1).push(a));
        lemma_fold_devices_snoc(
            spec_add_device(
                r,
                devs[0].name@,
                devs[0].family@,
                spec_core_name(devs[0].processor),
                spec_device_memory_map(devs[0].memories@, algoss[0]),
                algoss[0],
            ),
            devs.skip(1),
            algoss.skip(1),
            d,
            a,
        );
    }
}

/// The registry change one pack makes: its devices in some name-sorted
/// order, folded left to right through the per-device merge, each device
/// with some algorithm list.
pub open spec fn pack_step(
    before: Seq<FamilyModel>,
    devices: Seq<DeviceInfo>,
    after: Seq<FamilyModel>,
) -> bool {
    exists|sorted_devs: Seq<DeviceInfo>, algoss: Seq<Seq<AlgorithmModel>>|
        {
            &&& sorted_devs.to_multiset() == devices.to_multiset()
            &&& crate::model::devices_sorted(sorted_devs)
            &&& algoss.len() == sorted_devs.len()
            &&& after == #[trigger] spec_fold_devices(before, sorted_devs, algoss)
        }
}

/// Reads the flash geometry off an algorithm list.
fn flash_geometry_of(algos: &Vec<FlashAlgorithm>) -> (r: (u32, u32, u8))
    ensures
        r.0 as int == spec_flash_page(algos.deep_view()),
        r.1 as int == spec_flash_sector(algos.deep_view()),
        r.2 == spec_flash_erased(algos.deep_view()),
{
    let n: usize = algos.len();
    if n == 0 {
        (0, 0, 0xFF)
    } else {
        let last = &algos[n - 1];
        proof {
            assert(algos.deep_view().last() == algos@[n - 1].deep_view());
        }
        let sector: u32 = if last.geometry.sectors.len() == 0 {
            0
        } else {
            last.geometry.sectors[0].size
        };
        (last.geometry.page_size, sector, last.geometry.erased_byte_value)
    }
}

/// Builds one device's chip record from its name-mapped core, its selected
/// memory regions and its extracted algorithms, and folds it into the
/// registry. This step is exact for every value of `algorithms`, however the
/// pack source behaved.
pub fn merge_device(
    device: &DeviceInfo,
    algorithms: Vec<FlashAlgorithm>,
    families: &mut Vec<ChipFamily>,
)
    requires
        memories_bounded(device.memories@),
    ensures
        final(families).deep_view() == spec_add_device(
            old(families).deep_view(),
            device.name@,
            device.family@,
            spec_core_name(device.processor),
            spec_device_memory_map(device.memories@, algorithms.deep_view()),
            algorithms.deep_view(),
        ),
{
    let core = core_name(&device.processor);
    let ram = select_ram(&device.memories);
    let flash_bounds = select_flash_bounds(&device.memories);
    let geometry = flash_geometry_of(&algorithms);
    let mut memory_map: Vec<MemoryRegion> = Vec::new();
    if let Some(rr) = ram {
        memory_map.push(MemoryRegion::Ram(rr));
    }
    if let Some(m) = flash_bounds {
        proof {
            crate::model::lemma_selected_flash_is_element(device.memories@);
        }
        memory_map.push(
            MemoryRegion::Flash(
                FlashRegion {
                    start: m.start,
                    end: m.start + m.size,
                    is_boot: m.is_startup,
                    page_size: geometry.0,
                    sector_size: geometry.1,
                    erased_byte_value: geometry.2,
                },
            ),
        );
    }
    proof {
        assert(memory_map@ =~= spec_device_memory_map(
            device.memories@,
            algorithms.deep_view(),
        ));
    }
    add_device_record(
        families,
        device.name.clone(),
        device.family.clone(),
        core,
        memory_map,
        algorithms,
    );
}

/// Checks whether some algorithm of `cur` already has the normalized name
/// of `fa`.
fn contains_algo_named(cur: &Vec<FlashAlgorithm>, fa: &FlashAlgorithm) -> (r: bool)
    ensures
        r == has_algo_named(cur.deep_view(), lower(fa.name@)),
{
    let n: usize = cur.len();
    let mut i: usize = 0;
    while i < n
        invariant
            n == cur@.len(),
            i <= n,
            forall|j: int| 0 <= j < i ==> lower(#[trigger] cur.deep_view()[j].name) != lower(
                fa.name@,
            ),
        decreases n - i,
    {
        if lower_eq(cur[i].name.as_str(), fa.name.as_str()) {
            proof {
                assert(lower(cur.deep_view()[i as int].name) == lower(fa.name@));
            }
            return true;
        }
        i = i + 1;
    }
    false
}

/// Merges `add` into `cur` in order, keeping the first algorithm of each
/// normalized name and discarding later ones.
pub fn merge_algorithms(cur: Vec<FlashAlgorithm>, add: Vec<FlashAlgorithm>) -> (r: Vec<
    FlashAlgorithm,
>)
    ensures
        r.deep_view() == spec_merge_algos(cur.deep_view(), add.deep_view()),
{
    let ghost cur0 = cur.deep_view();
    let ghost add0 = add.deep_view();
    let mut out = cur;
    let mut rest = add;
    while rest.len() > 0
        invariant
            spec_merge_algos(out.deep_view(), rest.deep_view()) == spec_merge_algos(cur0, add0),
        decreases rest.len(),
    {
        let ghost out_before = out.deep_view();
        let ghost rest_before = rest.deep_view();
        let fa = rest.remove(0);
        proof {
            assert(rest.deep_view() =~= rest_before.skip(1));
            assert(fa.deep_view() == rest_before[0]);
        }
        if !contains_algo_named(&out, &fa) {
            out.push(fa);
            proof {
                assert(out.deep_view() =~= out_before.push(fa.deep_view()));
            }
        }
    }
    out
}

/// Finds the family named `name` in the registry.
fn find_family_index(families: &Vec<ChipFamily>, name: &String) -> (r: Option<usize>)
    ensures
        match r {
            Some(i) => i < families@.len() && spec_find_family(families.deep_view(), name@, 0)
                == Some(i as int),
            None => spec_find_family(families.deep_view(), name@, 0) is None,
        },
{
    let n: usize = families.len();
    let mut i: usize = 0;
    while i < n
        invariant
            n == families@.len(),
            i <= n,
            spec_find_family(families.deep_view(), name@, 0) == spec_find_family(
                families.deep_view(),
                name@,
                i as int,
            ),
        decreases n - i,
    {
        if families[i].name.eq(name) {
            proof {
                assert(families.deep_view()[i as int].name == name@);
            }
            return Some(i);
        }
        i = i + 1;
    }
    None
}

/// Folds one device's record into the registry: appends its chip to its
/// family's variant list and merges its algorithms into the family's set;
/// an unknown family is created at the end of the registry.
pub fn add_device_record(
    families: &mut Vec<ChipFamily>,
    device_name: String,
    family_name: String,
    core: String,
    memory_map: Vec<MemoryRegion>,
    algorithms: Vec<FlashAlgorithm>,
)
    ensures
        final(families).deep_view() == spec_add_device(
            old(families).deep_view(),
            device_name@,
            family_name@,
            core@,
            memory_map@,
            algorithms.deep_view(),
        ),
{
    let ghost r0 = families.deep_view();
    let ghost algos0 = algorithms.deep_view();
    let ghost famname0 = family_name@;
    let ghost core0 = core@;
    let mut refs: Vec<String> = Vec::new();
    let mut k: usize = 0;
    while k < algorithms.len()
        invariant
            k <= algorithms@.len(),
            algorithms.deep_view() == algos0,
            refs.deep_view() == algo_ref_names(algos0).take(k as int),
        decreases algorithms@.len() - k,
    {
        let ghost refs_before = refs.deep_view();
        refs.push(crate::names::ascii_lower(algorithms[k].name.as_str()));
        proof {
            assert(algo_ref_names(algos0)[k as int] == lower(algos0[k as int].name));
            assert(algos0[k as int].name == algorithms@[k as int].name@);
            assert(refs.deep_view() =~= refs_before.push(lower(algos0[k as int].name)));
            assert(refs.deep_view() =~= algo_ref_names(algos0).take(k + 1 as int));
        }
        k = k + 1;
    }
    proof {
        assert(refs.deep_view() =~= algo_ref_names(algos0));
    }
    let chip = Chip { name: device_name, memory_map, flash_algorithm_refs: refs };
    let ghost chip_model = chip@;
    match find_family_index(families, &family_name) {
        Some(i) => {
            let fam = families.remove(i);
            let ChipFamily { name: fname, core: fcore, flash_algorithms: falgos, variants: mut fvars } =
                fam;
            let ghost vars0 = fvars.deep_view();
            fvars.push(chip);
            proof {
                assert(fvars.deep_view() =~= vars0.push(chip_model));
            }
            let merged = merge_algorithms(falgos, algorithms);
            let fam2 = ChipFamily {
                name: fname,
                core: fcore,
                flash_algorithms: merged,
                variants: fvars,
            };
            families.insert(i, fam2);
            proof {
                assert(families.deep_view() =~= spec_add_device(
                    r0,
                    chip_model.name,
                    famname0,
                    core0,
                    chip_model.memory_map,
                    algos0,
                ));
            }
        },
        None => {
            let empty_algos: Vec<FlashAlgorithm> = Vec::new();
            proof {
                assert(empty_algos.deep_view() =~= Seq::<AlgorithmModel>::empty());
            }
            let merged = merge_algorithms(empty_algos, algorithms);
            let mut variants: Vec<Chip> = Vec::new();
            variants.push(chip);
            proof {
                assert(variants.deep_view() =~= seq![chip_model]);
            }
            families.push(
                ChipFamily { name: family_name, core, flash_algorithms: merged, variants },
            );
            proof {
                assert(families.deep_view() =~= spec_add_device(
                    r0,
                    chip_model.name,
                    famname0,
                    core0,
                    chip_model.memory_map,
                    algos0,
                ));
            }
        },
    }
}

} // verus!
