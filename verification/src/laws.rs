//! Global properties of the loaded graph, proved over the builder's
//! definition: which names get a node, that dependency edges always have
//! their reverse edge, what holds of placeholder nodes, and that re-loading
//! the same input reproduces the graph.

use vstd::prelude::*;

use crate::graph::add_alternative;
use crate::graph::add_group;
use crate::graph::add_groups;
use crate::graph::apply_paragraph;
use crate::graph::build_from;
use crate::graph::build_registry;
use crate::graph::find_name;
use crate::graph::find_name_from;
use crate::graph::upsert_subject;
use crate::graph::PkgModel;
use crate::stanza::groups_of;
use crate::stanza::lemma_scan_advances;
use crate::stanza::scan_paragraph;
use crate::stanza::ScanOutcome;

verus! {

/// Whether some node of the registry is named `n`.
pub open spec fn has_name(reg: Seq<PkgModel>, n: Seq<char>) -> bool {
    exists|k: int| 0 <= k < reg.len() && reg[k].name == n
}

/// The set of names present in the registry.
pub open spec fn names_set(reg: Seq<PkgModel>) -> Set<Seq<char>> {
    Set::new(|n: Seq<char>| has_name(reg, n))
}

/// No two nodes share a name: the registry is a map keyed by name.
pub open spec fn names_unique(reg: Seq<PkgModel>) -> bool {
    forall|j: int, k: int| 0 <= j < k < reg.len() ==> reg[j].name != reg[k].name
}

proof fn lemma_find_name_from(reg: Seq<PkgModel>, n: Seq<char>, i: int)
    requires
        0 <= i <= reg.len(),
    ensures
        ({
            let r = find_name_from(reg, n, i);
            &&& i <= r <= reg.len()
            &&& r < reg.len() ==> reg[r].name == n
            &&& forall|j: int| i <= j < r ==> reg[j].name != n
        }),
    decreases reg.len() - i,
{
    if i < reg.len() && reg[i].name != n {
        lemma_find_name_from(reg, n, i + 1);
    }
}

/// `find_name` finds the node named `n` exactly when one exists.
pub proof fn lemma_find_name(reg: Seq<PkgModel>, n: Seq<char>)
    ensures
        ({
            let r = find_name(reg, n);
            &&& 0 <= r <= reg.len()
            &&& r < reg.len() ==> reg[r].name == n
            &&& r < reg.len() <==> has_name(reg, n)
            &&& forall|j: int| 0 <= j < r ==> reg[j].name != n
        }),
{
    lemma_find_name_from(reg, n, 0);
}

/// Every dependency and reverse-dependency entry is the index of a node.
/// Forward references are materialized, never left dangling.
pub open spec fn indices_wf(reg: Seq<PkgModel>) -> bool {
    &&& (forall|a: int, g: int, k: int|
        #![trigger reg[a].dependencies[g][k]]
        0 <= a < reg.len() && 0 <= g < reg[a].dependencies.len() && 0 <= k
            < reg[a].dependencies[g].len() ==> 0 <= reg[a].dependencies[g][k] < reg.len())
    &&& (forall|a: int, k: int|
        #![trigger reg[a].reverse_dependencies[k]]
        0 <= a < reg.len() && 0 <= k < reg[a].reverse_dependencies.len() ==> 0 <= reg[
            a
        ].reverse_dependencies[k] < reg.len())
}

/// Every dependency edge has its reverse edge: when node `a` lists node `b`
/// among its dependency alternatives, `b`'s reverse dependencies contain `a`.
pub open spec fn edges_wf(reg: Seq<PkgModel>) -> bool {
    forall|a: int, g: int, k: int|
        #![trigger reg[a].dependencies[g][k]]
        0 <= a < reg.len() && 0 <= g < reg[a].dependencies.len() && 0 <= k
            < reg[a].dependencies[g].len() && 0 <= reg[a].dependencies[g][k] < reg.len() ==> reg[
            reg[a].dependencies[g][k]
        ].reverse_dependencies.contains(a)
}

/// Every installed node, and every node with dependency groups, got them from
/// a stanza of its own: its name is in `subjects`.
pub open spec fn installed_are_subjects(reg: Seq<PkgModel>, subjects: Set<Seq<char>>) -> bool {
    forall|k: int|
        0 <= k < reg.len() ==> (((#[trigger] reg[k]).installed || reg[k].dependencies.len() > 0)
            ==> subjects.contains(reg[k].name))
}

/// `r2` extends `reg`: old nodes keep name, dependencies and installed flag,
/// and keep every reverse-dependency entry they had.
pub open spec fn extends(reg: Seq<PkgModel>, r2: Seq<PkgModel>) -> bool {
    &&& reg.len() <= r2.len()
    &&& (forall|j: int|
        0 <= j < reg.len() ==> {
            &&& (#[trigger] r2[j]).name == reg[j].name
            &&& r2[j].dependencies == reg[j].dependencies
            &&& r2[j].installed == reg[j].installed
        })
    &&& (forall|j: int, x: int|
        0 <= j < reg.len() && reg[j].reverse_dependencies.contains(x)
            ==> #[trigger] r2[j].reverse_dependencies.contains(x))
}

proof fn lemma_extends_trans(a: Seq<PkgModel>, b: Seq<PkgModel>, c: Seq<PkgModel>)
    requires
        extends(a, b),
        extends(b, c),
    ensures
        extends(a, c),
{
}

/// What resolving one alternative does to the registry.
proof fn lemma_add_alternative(reg: Seq<PkgModel>, s: int, alt: Seq<char>)
    ensures
        ({
            let (r2, i) = add_alternative(reg, s, alt);
            &&& extends(reg, r2)
            &&& r2.len() <= reg.len() + 1
            &&& 0 <= i < r2.len()
            &&& r2[i].name == alt
            &&& r2[i].reverse_dependencies.contains(s)
            &&& (forall|j: int|
                reg.len() <= j < r2.len() ==> !(#[trigger] r2[j]).installed
                    && r2[j].dependencies.len() == 0)
            &&& (forall|n: Seq<char>| has_name(r2, n) <==> has_name(reg, n) || n == alt)
            &&& (names_unique(reg) ==> names_unique(r2))
            &&& (forall|j: int, x: int|
                0 <= j < r2.len() && #[trigger] r2[j].reverse_dependencies.contains(x) ==> (0 <= j
                    < reg.len() && reg[j].reverse_dependencies.contains(x)) || x == s)
        }),
{
    lemma_find_name(reg, alt);
    let (r2, i) = add_alternative(reg, s, alt);
    if find_name(reg, alt) < reg.len() {
        let old_rd = reg[i].reverse_dependencies;
        assert(r2[i].reverse_dependencies == old_rd.push(s));
        assert(old_rd.push(s)[old_rd.len() as int] == s);
        assert(r2[i].reverse_dependencies.contains(s));
        assert forall|j: int, x: int|
            0 <= j < reg.len() && reg[j].reverse_dependencies.contains(
                x,
            ) implies #[trigger] r2[j].reverse_dependencies.contains(x) by {
            let k = choose|k: int|
                0 <= k < reg[j].reverse_dependencies.len() && reg[j].reverse_dependencies[k] == x;
            assert(r2[j].reverse_dependencies[k] == x);
        }
        assert forall|j: int, x: int|
            0 <= j < r2.len() && #[trigger] r2[j].reverse_dependencies.contains(x) && x
                != s implies 0 <= j < reg.len() && reg[j].reverse_dependencies.contains(x) by {
            let k = choose|k: int|
                0 <= k < r2[j].reverse_dependencies.len() && r2[j].reverse_dependencies[k] == x;
            if j == i {
                assert(old_rd.push(s)[k] == x);
                assert(reg[j].reverse_dependencies[k] == x);
            }
        }
        assert forall|n: Seq<char>| has_name(r2, n) implies has_name(reg, n) || n == alt by {
            let k = choose|k: int| 0 <= k < r2.len() && r2[k].name == n;
            assert(reg[k].name == n);
        }
        assert forall|n: Seq<char>| has_name(reg, n) || n == alt implies has_name(r2, n) by {
            if has_name(reg, n) {
                let k = choose|k: int| 0 <= k < reg.len() && reg[k].name == n;
                assert(r2[k].name == n);
            } else {
                assert(r2[i].name == alt);
            }
        }
    } else {
        assert(r2[i].reverse_dependencies == seq![s]);
        assert(r2[i].reverse_dependencies[0] == s);
        assert forall|j: int, x: int|
            0 <= j < reg.len() && reg[j].reverse_dependencies.contains(
                x,
            ) implies #[trigger] r2[j].reverse_dependencies.contains(x) by {
            let k = choose|k: int|
                0 <= k < reg[j].reverse_dependencies.len() && reg[j].reverse_dependencies[k] == x;
            assert(r2[j].reverse_dependencies[k] == x);
        }
        assert forall|j: int, x: int|
            0 <= j < r2.len() && #[trigger] r2[j].reverse_dependencies.contains(x) && x
                != s implies 0 <= j < reg.len() && reg[j].reverse_dependencies.contains(x) by {
            let k = choose|k: int|
                0 <= k < r2[j].reverse_dependencies.len() && r2[j].reverse_dependencies[k] == x;
            if j < reg.len() {
                assert(reg[j].reverse_dependencies[k] == x);
            } else {
                assert(seq![s][k] == x);
            }
        }
        assert forall|n: Seq<char>| has_name(r2, n) implies has_name(reg, n) || n == alt by {
            let k = choose|k: int| 0 <= k < r2.len() && r2[k].name == n;
            if k < reg.len() {
                assert(reg[k].name == n);
            }
        }
        assert forall|n: Seq<char>| has_name(reg, n) || n == alt implies has_name(r2, n) by {
            if has_name(reg, n) {
                let k = choose|k: int| 0 <= k < reg.len() && reg[k].name == n;
                assert(r2[k].name == n);
            } else {
                assert(r2[reg.len() as int].name == alt);
            }
        }
        if names_unique(reg) {
            assert forall|j: int, k: int| 0 <= j < k < r2.len() implies r2[j].name != r2[k].name by {
                if k == reg.len() {
                    assert(reg[j].name != alt);
                }
            }
        }
    }
}

/// What resolving the alternatives `alts[k..]` of one group does.
proof fn lemma_add_group(reg: Seq<PkgModel>, s: int, alts: Seq<Seq<char>>, k: int)
    requires
        0 <= k <= alts.len(),
    ensures
        ({
            let (r2, idx) = add_group(reg, s, alts, k);
            &&& extends(reg, r2)
            &&& idx.len() == alts.len() - k
            &&& (forall|t: int|
                0 <= t < idx.len() ==> 0 <= #[trigger] idx[t] < r2.len() && r2[
                    idx[t]
                ].reverse_dependencies.contains(s))
            &&& (forall|j: int|
                reg.len() <= j < r2.len() ==> !(#[trigger] r2[j]).installed
                    && r2[j].dependencies.len() == 0)
            &&& (forall|n: Seq<char>|
                has_name(r2, n) <==> has_name(reg, n) || exists|t: int|
                    k <= t < alts.len() && alts[t] == n)
            &&& (names_unique(reg) ==> names_unique(r2))
            &&& (forall|j: int, x: int|
                0 <= j < r2.len() && #[trigger] r2[j].reverse_dependencies.contains(x) ==> (0 <= j
                    < reg.len() && reg[j].reverse_dependencies.contains(x)) || x == s)
        }),
    decreases alts.len() - k,
{
    let (r2, idx) = add_group(reg, s, alts, k);
    if k < alts.len() {
        lemma_add_alternative(reg, s, alts[k]);
        let (r1, i) = add_alternative(reg, s, alts[k]);
        lemma_add_group(r1, s, alts, k + 1);
        let (rr, rest) = add_group(r1, s, alts, k + 1);
        lemma_extends_trans(reg, r1, rr);
        assert(idx =~= seq![i] + rest);
        assert forall|t: int|
            0 <= t < idx.len() implies 0 <= #[trigger] idx[t] < r2.len() && r2[
            idx[t]
        ].reverse_dependencies.contains(s) by {
            if t == 0 {
                assert(idx[0] == i);
                assert(r1[i].reverse_dependencies.contains(s));
            } else {
                assert(idx[t] == rest[t - 1]);
            }
        }
        assert forall|n: Seq<char>|
            has_name(r2, n) <==> has_name(reg, n) || exists|t: int|
                k <= t < alts.len() && alts[t] == n by {
            if has_name(reg, n) || exists|t: int| k <= t < alts.len() && alts[t] == n {
                if has_name(reg, n) {
                    assert(has_name(r1, n));
                } else {
                    let t = choose|t: int| k <= t < alts.len() && alts[t] == n;
                    if t == k {
                        assert(has_name(r1, n));
                    } else {
                        assert(k + 1 <= t < alts.len() && alts[t] == n);
                        assert(has_name(r2, n));
                    }
                }
            }
            if has_name(r2, n) {
                if !has_name(reg, n) && !(exists|t: int| k <= t < alts.len() && alts[t] == n) {
                    if has_name(r1, n) {
                        assert(n == alts[k]);
                    } else {
                        let t = choose|t: int| k + 1 <= t < alts.len() && alts[t] == n;
                        assert(k <= t < alts.len() && alts[t] == n);
                    }
                    assert(false);
                }
            }
        }
    }
}

/// What resolving the groups `groups[g..]` does.
proof fn lemma_add_groups(reg: Seq<PkgModel>, s: int, groups: Seq<Seq<Seq<char>>>, g: int)
    requires
        0 <= g <= groups.len(),
    ensures
        ({
            let (r2, idx) = add_groups(reg, s, groups, g);
            &&& extends(reg, r2)
            &&& idx.len() == groups.len() - g
            &&& (forall|t: int, u: int|
                #![trigger idx[t][u]]
                0 <= t < idx.len() && 0 <= u < idx[t].len() ==> 0 <= idx[t][u] < r2.len() && r2[
                    idx[t][u]
                ].reverse_dependencies.contains(s))
            &&& (forall|j: int|
                reg.len() <= j < r2.len() ==> !(#[trigger] r2[j]).installed
                    && r2[j].dependencies.len() == 0)
            &&& (forall|n: Seq<char>|
                has_name(r2, n) <==> has_name(reg, n) || exists|t: int, u: int|
                    #![trigger groups[t][u]]
                    g <= t < groups.len() && 0 <= u < groups[t].len() && groups[t][u] == n)
            &&& (names_unique(reg) ==> names_unique(r2))
            &&& (forall|j: int, x: int|
                0 <= j < r2.len() && #[trigger] r2[j].reverse_dependencies.contains(x) ==> (0 <= j
                    < reg.len() && reg[j].reverse_dependencies.contains(x)) || x == s)
        }),
    decreases groups.len() - g,
{
    let (r2, idx) = add_groups(reg, s, groups, g);
    if g < groups.len() {
        lemma_add_group(reg, s, groups[g], 0);
        let (r1, first) = add_group(reg, s, groups[g], 0);
        lemma_add_groups(r1, s, groups, g + 1);
        let (rr, rest) = add_groups(r1, s, groups, g + 1);
        lemma_extends_trans(reg, r1, rr);
        assert(idx =~= seq![first] + rest);
        assert forall|t: int, u: int|
            #![trigger idx[t][u]]
            0 <= t < idx.len() && 0 <= u < idx[t].len() implies 0 <= idx[t][u] < r2.len() && r2[
            idx[t][u]
        ].reverse_dependencies.contains(s) by {
            if t == 0 {
                assert(idx[0] == first);
                assert(r1[first[u]].reverse_dependencies.contains(s));
            } else {
                assert(idx[t] == rest[t - 1]);
            }
        }
        assert forall|n: Seq<char>|
            has_name(r2, n) <==> has_name(reg, n) || exists|t: int, u: int|
                #![trigger groups[t][u]]
                g <= t < groups.len() && 0 <= u < groups[t].len() && groups[t][u] == n by {
            if has_name(reg, n) || exists|t: int, u: int|
                #![trigger groups[t][u]]
                g <= t < groups.len() && 0 <= u < groups[t].len() && groups[t][u] == n {
                if has_name(reg, n) {
                    assert(has_name(r1, n));
                } else {
                    let (t, u) = choose|t: int, u: int|
                        #![trigger groups[t][u]]
                        g <= t < groups.len() && 0 <= u < groups[t].len() && groups[t][u] == n;
                    if t == g {
                        assert(exists|v: int| 0 <= v < groups[g].len() && groups[g][v] == n);
                        assert(has_name(r1, n));
                    } else {
                        assert(g + 1 <= t < groups.len() && 0 <= u < groups[t].len()
                            && groups[t][u] == n);
                        assert(has_name(r2, n));
                    }
                }
            }
            if has_name(r2, n) {
                if !has_name(reg, n) && !(exists|t: int, u: int|
                    #![trigger groups[t][u]]
                    g <= t < groups.len() && 0 <= u < groups[t].len() && groups[t][u] == n) {
                    if has_name(r1, n) {
                        let v = choose|v: int| 0 <= v < groups[g].len() && groups[g][v] == n;
                        assert(g <= g < groups.len() && 0 <= v < groups[g].len() && groups[g][v]
                            == n);
                    } else {
                        let (t, u) = choose|t: int, u: int|
                            #![trigger groups[t][u]]
                            g + 1 <= t < groups.len() && 0 <= u < groups[t].len() && groups[t][u]
                                == n;
                        assert(g <= t < groups.len() && 0 <= u < groups[t].len() && groups[t][u]
                            == n);
                    }
                    assert(false);
                }
            }
        }
    }
}

/// What resolving a stanza's subject does.
proof fn lemma_upsert(reg: Seq<PkgModel>, name: Seq<char>, desc: Seq<Seq<char>>)
    ensures
        ({
            let (r2, s) = upsert_subject(reg, name, desc);
            &&& reg.len() <= r2.len() <= reg.len() + 1
            &&& 0 <= s < r2.len()
            &&& r2[s].name == name
            &&& r2[s].installed
            &&& r2[s].dependencies == if s < reg.len() {
                reg[s].dependencies
            } else {
                Seq::<Seq<int>>::empty()
            }
            &&& r2[s].reverse_dependencies == if s < reg.len() {
                reg[s].reverse_dependencies
            } else {
                Seq::<int>::empty()
            }
            &&& (forall|j: int| 0 <= j < reg.len() && j != s ==> r2[j] == reg[j])
            &&& (s < reg.len() ==> r2.len() == reg.len())
            &&& (forall|n: Seq<char>| has_name(r2, n) <==> has_name(reg, n) || n == name)
            &&& (names_unique(reg) ==> names_unique(r2))
        }),
{
    lemma_find_name(reg, name);
    let (r2, s) = upsert_subject(reg, name, desc);
    assert forall|n: Seq<char>| has_name(r2, n) implies has_name(reg, n) || n == name by {
        let k = choose|k: int| 0 <= k < r2.len() && r2[k].name == n;
        if k < reg.len() {
            assert(reg[k].name == n);
        }
    }
    assert forall|n: Seq<char>| has_name(reg, n) || n == name implies has_name(r2, n) by {
        if has_name(reg, n) {
            let k = choose|k: int| 0 <= k < reg.len() && reg[k].name == n;
            assert(r2[k].name == n);
        } else {
            assert(r2[s].name == name);
        }
    }
    if names_unique(reg) && s == reg.len() {
        assert forall|j: int, k: int| 0 <= j < k < r2.len() implies r2[j].name != r2[k].name by {
            if k == reg.len() {
                assert(reg[j].name != name);
            }
        }
    }
}

/// The names of all alternatives of all groups.
pub open spec fn group_names(groups: Seq<Seq<Seq<char>>>) -> Set<Seq<char>> {
    Set::new(
        |n: Seq<char>|
            exists|t: int, u: int|
                #![trigger groups[t][u]]
                0 <= t < groups.len() && 0 <= u < groups[t].len() && groups[t][u] == n,
    )
}

/// What applying one whole paragraph does to the registry.
proof fn lemma_apply_paragraph(
    reg: Seq<PkgModel>,
    name: Seq<char>,
    desc: Seq<Seq<char>>,
    groups: Seq<Seq<Seq<char>>>,
    subjects: Set<Seq<char>>,
)
    requires
        indices_wf(reg),
        edges_wf(reg),
        installed_are_subjects(reg, subjects),
        subjects.contains(name),
    ensures
        ({
            let r2 = apply_paragraph(reg, name, desc, groups);
            &&& indices_wf(r2)
            &&& edges_wf(r2)
            &&& installed_are_subjects(r2, subjects)
            &&& names_set(r2) =~= names_set(reg).insert(name).union(group_names(groups))
            &&& (names_unique(reg) ==> names_unique(r2))
            &&& reg.len() <= r2.len()
        }),
{
    lemma_upsert(reg, name, desc);
    let (r1, s) = upsert_subject(reg, name, desc);
    lemma_add_groups(r1, s, groups, 0);
    let (rg, dep_idx) = add_groups(r1, s, groups, 0);
    let r2 = apply_paragraph(reg, name, desc, groups);
    assert(r2 == rg.update(
        s,
        PkgModel {
            name: rg[s].name,
            description: rg[s].description,
            dependencies: dep_idx,
            reverse_dependencies: rg[s].reverse_dependencies,
            installed: rg[s].installed,
        },
    ));
    assert(r2.len() == rg.len());
    // Reverse-dependency entries of `r2` are old entries or the subject.
    assert forall|j: int, x: int|
        0 <= j < r2.len() && #[trigger] r2[j].reverse_dependencies.contains(x) implies 0 <= x
        < r2.len() by {
        assert(r2[j].reverse_dependencies == rg[j].reverse_dependencies);
        if x != s {
            assert(0 <= j < r1.len() && r1[j].reverse_dependencies.contains(x));
            if j != s || s < reg.len() {
                assert(r1[j].reverse_dependencies == reg[j].reverse_dependencies);
                let k = choose|k: int|
                    0 <= k < reg[j].reverse_dependencies.len() && reg[j].reverse_dependencies[k]
                        == x;
                assert(0 <= x < reg.len());
            } else {
                assert(r1[j].reverse_dependencies.len() == 0);
                assert(false);
            }
        }
    }
    assert forall|a: int, k: int|
        0 <= a < r2.len() && 0 <= k
            < r2[a].reverse_dependencies.len() implies 0 <= #[trigger] r2[a].reverse_dependencies[k]
        < r2.len() by {
        assert(r2[a].reverse_dependencies.contains(r2[a].reverse_dependencies[k]));
    }
    // Dependency indices of `r2` are in range and have their reverse edge.
    assert forall|a: int, g: int, k: int|
        #![trigger r2[a].dependencies[g][k]]
        0 <= a < r2.len() && 0 <= g < r2[a].dependencies.len() && 0 <= k
            < r2[a].dependencies[g].len() implies {
        let b = r2[a].dependencies[g][k];
        &&& 0 <= b < r2.len()
        &&& r2[b].reverse_dependencies.contains(a)
    } by {
        let b = r2[a].dependencies[g][k];
        if a == s {
            assert(r2[a].dependencies == dep_idx);
            assert(0 <= b < rg.len());
            assert(rg[b].reverse_dependencies.contains(s));
            assert(r2[b].reverse_dependencies == rg[b].reverse_dependencies);
        } else if a < reg.len() {
            assert(r2[a].dependencies == rg[a].dependencies);
            assert(rg[a].dependencies == r1[a].dependencies);
            assert(r1[a] == reg[a]);
            let b0 = reg[a].dependencies[g][k];
            assert(b == b0);
            assert(0 <= b0 < reg.len());
            assert(reg[b0].reverse_dependencies.contains(a));
            if b0 == s {
                assert(s < reg.len());
            }
            assert(r1[b0].reverse_dependencies == reg[b0].reverse_dependencies);
            assert(rg[b0].reverse_dependencies.contains(a));
            assert(r2[b0].reverse_dependencies == rg[b0].reverse_dependencies);
        } else {
            // A node added while resolving the groups: it has no dependencies.
            assert(reg.len() <= a < rg.len());
            if s == reg.len() {
                assert(a != s);
                assert(r1.len() == reg.len() + 1);
                assert(r1.len() <= a < rg.len());
                assert(rg[a].dependencies.len() == 0);
            } else {
                assert(r1.len() == reg.len());
                assert(rg[a].dependencies.len() == 0);
            }
            assert(false);
        }
    }
    assert(indices_wf(r2));
    assert(edges_wf(r2));
    // Installed nodes and nodes with dependencies are subjects.
    assert forall|k: int|
        0 <= k < r2.len() && ((#[trigger] r2[k]).installed || r2[k].dependencies.len()
            > 0) implies subjects.contains(r2[k].name) by {
        if k == s {
            assert(r2[k].name == name);
        } else if k < reg.len() {
            assert(r2[k].name == reg[k].name);
            assert(r2[k].installed == reg[k].installed);
            assert(r2[k].dependencies == reg[k].dependencies);
        } else {
            assert(r1.len() <= k < rg.len());
            assert(!rg[k].installed && rg[k].dependencies.len() == 0);
            assert(false);
        }
    }
    // The names are the old ones, the subject, and the alternatives.
    assert forall|n: Seq<char>| #[trigger]
        names_set(r2).contains(n) <==> names_set(reg).insert(name).union(
        group_names(groups),
    ).contains(n) by {
        assert(has_name(r2, n) <==> has_name(rg, n)) by {
            if has_name(r2, n) {
                let k = choose|k: int| 0 <= k < r2.len() && r2[k].name == n;
                assert(rg[k].name == n);
            }
            if has_name(rg, n) {
                let k = choose|k: int| 0 <= k < rg.len() && rg[k].name == n;
                assert(r2[k].name == n);
            }
        }
        assert(group_names(groups).contains(n) <==> exists|t: int, u: int|
            #![trigger groups[t][u]]
            0 <= t < groups.len() && 0 <= u < groups[t].len() && groups[t][u] == n);
    }
    assert(names_set(r2) =~= names_set(reg).insert(name).union(group_names(groups)));
}

/// The subjects of the paragraphs that a load of `lines` consumes, reading
/// from position `i`: the names that stanzas of their own describe.
pub open spec fn subject_names(lines: Seq<Seq<char>>, i: int) -> Set<Seq<char>>
    decreases lines.len() - i,
{
    match scan_paragraph(lines, i, false) {
        ScanOutcome::Complete(pm, next) => {
            proof {
                lemma_scan_advances(lines, i, false);
            }
            subject_names(lines, next).insert(pm.name)
        },
        _ => Set::empty(),
    }
}

/// Every name the load mentions, reading from position `i`: the subjects and
/// every alternative of every `Depends:` clause consumed.
pub open spec fn mentioned_names(lines: Seq<Seq<char>>, i: int) -> Set<Seq<char>>
    decreases lines.len() - i,
{
    match scan_paragraph(lines, i, false) {
        ScanOutcome::Complete(pm, next) => {
            proof {
                lemma_scan_advances(lines, i, false);
            }
            mentioned_names(lines, next).insert(pm.name).union(
                group_names(groups_of(pm.raw_depends)),
            )
        },
        _ => Set::empty(),
    }
}

proof fn lemma_build_from(
    lines: Seq<Seq<char>>,
    i: int,
    reg: Seq<PkgModel>,
    subjects: Set<Seq<char>>,
)
    requires
        indices_wf(reg),
        edges_wf(reg),
        installed_are_subjects(reg, subjects),
    ensures
        ({
            let r2 = build_from(lines, i, reg);
            &&& indices_wf(r2)
            &&& edges_wf(r2)
            &&& installed_are_subjects(r2, subjects.union(subject_names(lines, i)))
            &&& names_set(r2) =~= names_set(reg).union(mentioned_names(lines, i))
            &&& (names_unique(reg) ==> names_unique(r2))
        }),
    decreases lines.len() - i,
{
    let r2 = build_from(lines, i, reg);
    match scan_paragraph(lines, i, false) {
        ScanOutcome::Complete(pm, next) => {
            lemma_scan_advances(lines, i, false);
            let s2 = subjects.union(subject_names(lines, i));
            assert(s2.contains(pm.name));
            assert(installed_are_subjects(reg, s2));
            lemma_apply_paragraph(reg, pm.name, pm.description, groups_of(pm.raw_depends), s2);
            let ra = apply_paragraph(reg, pm.name, pm.description, groups_of(pm.raw_depends));
            lemma_build_from(lines, next, ra, s2);
            assert(s2.union(subject_names(lines, next)) =~= subjects.union(
                subject_names(lines, i),
            ));
            assert(installed_are_subjects(r2, subjects.union(subject_names(lines, i))));
            assert(names_set(r2) =~= names_set(ra).union(mentioned_names(lines, next)));
            assert(names_set(ra) =~= names_set(reg).insert(pm.name).union(
                group_names(groups_of(pm.raw_depends)),
            ));
            assert(names_set(r2) =~= names_set(reg).union(mentioned_names(lines, i)));
        },
        _ => {
            assert(r2 == reg);
            assert(subjects.union(subject_names(lines, i)) =~= subjects);
            assert(names_set(r2) =~= names_set(reg).union(mentioned_names(lines, i)));
        },
    }
}

/// Law: the registry holds exactly one node per distinct name that the load
/// mentions, be it as a stanza subject or inside a `Depends:` clause; its
/// node count is the number of those names.
pub proof fn lemma_node_count(lines: Seq<Seq<char>>)
    ensures
        names_set(build_registry(lines)) =~= mentioned_names(lines, 0),
        names_unique(build_registry(lines)),
        build_registry(lines).len() == mentioned_names(lines, 0).len(),
{
    let reg = build_registry(lines);
    lemma_build_from(lines, 0, Seq::empty(), Set::empty());
    assert(names_set(Seq::<PkgModel>::empty()) =~= Set::<Seq<char>>::empty());
    assert(names_set(reg) =~= mentioned_names(lines, 0));
    let names = reg.map_values(|p: PkgModel| p.name);
    assert(names.no_duplicates());
    names.unique_seq_to_set();
    assert forall|n: Seq<char>| #[trigger] names.to_set().contains(n) <==> names_set(
        reg,
    ).contains(n) by {
        if names.to_set().contains(n) {
            let k = choose|k: int| 0 <= k < names.len() && names[k] == n;
            assert(reg[k].name == n);
        }
        if has_name(reg, n) {
            let k = choose|k: int| 0 <= k < reg.len() && reg[k].name == n;
            assert(names[k] == n);
            assert(names.contains(n));
        }
    }
    assert(names.to_set() =~= mentioned_names(lines, 0));
}

/// Law: every edge recorded from a dependency alternative has its reverse
/// edge -- if node `a` lists node `b` in a group, `b`'s reverse dependencies
/// contain `a` -- and every stored index points at a node of the registry.
pub proof fn lemma_reverse_edges(lines: Seq<Seq<char>>)
    ensures
        indices_wf(build_registry(lines)),
        edges_wf(build_registry(lines)),
{
    lemma_build_from(lines, 0, Seq::empty(), Set::empty());
}

/// Law: a package named only inside `Depends:` clauses and never given a
/// stanza of its own stays a placeholder: not installed, and with no
/// dependency groups.
pub proof fn lemma_placeholders(lines: Seq<Seq<char>>)
    ensures
        forall|k: int|
            0 <= k < build_registry(lines).len() && !subject_names(lines, 0).contains(
                (#[trigger] build_registry(lines)[k]).name,
            ) ==> !build_registry(lines)[k].installed && build_registry(
                lines,
            )[k].dependencies.len() == 0,
{
    lemma_build_from(lines, 0, Seq::empty(), Set::empty());
    assert(Set::empty().union(subject_names(lines, 0)) =~= subject_names(lines, 0));
}

/// Law: loading is a pure function of the input lines, so re-loading
/// identical input reproduces the graph node for node -- the same names, the
/// same `installed` flags and the same edges, in the same arena order.
pub proof fn lemma_reload_reproduces(
    lines: Seq<Seq<char>>,
    first: Seq<PkgModel>,
    second: Seq<PkgModel>,
)
    requires
        first == build_registry(lines),
        second == build_registry(lines),
    ensures
        first.len() == second.len(),
        forall|k: int|
            0 <= k < first.len() ==> (#[trigger] first[k]).name == second[k].name && first[
                k
            ].installed == second[k].installed && first[k].dependencies == second[k].dependencies
                && first[k].reverse_dependencies == second[k].reverse_dependencies,
{
}

} // verus!
