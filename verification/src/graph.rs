//! The package registry: an arena of nodes with bidirectional edges.
//!
//! Every distinct name gets exactly one node, whether the name heads a stanza
//! of its own or only appears inside a `Depends:` clause. Edges are stored as
//! indices into the arena: `dependencies` holds the alternative groups of the
//! node's last stanza, `reverse_dependencies` every node that named this one
//! as a dependency alternative when an edge was created. A node created only
//! as the target of a dependency is a placeholder with `installed` false; a
//! later stanza for the same name turns the flag on in place, keeping the
//! edges already accumulated.

use vstd::prelude::*;

use crate::stanza::read_package_from_lines;
use crate::stanza::Paragraph;
use crate::stanza::scan_paragraph;
use crate::stanza::groups_of;
use crate::stanza::lemma_scan_advances;
use crate::stanza::ReadOutcome;
use crate::stanza::ScanOutcome;
use crate::text::lemma_lex_le_total;
use crate::text::lex_le;
use crate::text::str_eq;
use crate::text::str_le;

verus! {

/// One node of the package graph.
pub struct Package {
    /// The registry key; unique across the arena.
    pub name: String,
    /// The description lines of the node's last stanza, in order.
    pub description: Vec<String>,
    /// Alternative groups of arena indices: the outer sequence is an AND of
    /// comma-separated clauses, each inner sequence an OR of alternatives.
    pub dependencies: Vec<Vec<usize>>,
    /// Arena indices of every node that named this one as a dependency
    /// alternative, one entry per edge created.
    pub reverse_dependencies: Vec<usize>,
    /// Whether a stanza for this exact name was read from the input.
    pub installed: bool,
}

/// The mathematical value of a node.
#[verifier::ext_equal]
pub ghost struct PkgModel {
    pub name: Seq<char>,
    pub description: Seq<Seq<char>>,
    pub dependencies: Seq<Seq<int>>,
    pub reverse_dependencies: Seq<int>,
    pub installed: bool,
}

impl View for Package {
    type V = PkgModel;

    open spec fn view(&self) -> PkgModel {
        PkgModel {
            name: self.name@,
            description: self.description.deep_view(),
            dependencies: Seq::new(
                self.dependencies@.len(),
                |g: int| self.dependencies@[g]@.map_values(|k: usize| k as int),
            ),
            reverse_dependencies: self.reverse_dependencies@.map_values(|k: usize| k as int),
            installed: self.installed,
        }
    }
}

impl DeepView for Package {
    type V = PkgModel;

    open spec fn deep_view(&self) -> PkgModel {
        self.view()
    }
}

/// Index of the first node at or after `i` whose name is `name`, or
/// `reg.len()` if there is none.
pub open spec fn find_name_from(reg: Seq<PkgModel>, name: Seq<char>, i: int) -> int
    decreases reg.len() - i,
{
    if i < 0 || i >= reg.len() {
        reg.len() as int
    } else if reg[i].name == name {
        i
    } else {
        find_name_from(reg, name, i + 1)
    }
}

/// Index of the node named `name`, or `reg.len()` if the registry has none.
pub open spec fn find_name(reg: Seq<PkgModel>, name: Seq<char>) -> int {
    find_name_from(reg, name, 0)
}

/// Resolves the subject of a stanza: an existing node named `name` has its
/// description replaced and its `installed` flag set, in place; otherwise a
/// fresh installed node is appended. Yields the new registry and the
/// subject's index.
pub open spec fn upsert_subject(reg: Seq<PkgModel>, name: Seq<char>, desc: Seq<Seq<char>>) -> (
    Seq<PkgModel>,
    int,
) {
    let i = find_name(reg, name);
    if i < reg.len() {
        (
            reg.update(
                i,
                PkgModel {
                    name: reg[i].name,
                    description: desc,
                    dependencies: reg[i].dependencies,
                    reverse_dependencies: reg[i].reverse_dependencies,
                    installed: true,
                },
            ),
            i,
        )
    } else {
        (
            reg.push(
                PkgModel {
                    name: name,
                    description: desc,
                    dependencies: Seq::empty(),
                    reverse_dependencies: Seq::empty(),
                    installed: true,
                },
            ),
            reg.len() as int,
        )
    }
}

/// Resolves one dependency alternative named `alt` of the subject at index
/// `subject`: an existing node gains the subject in its reverse dependencies;
/// an unseen name is materialized as a placeholder node (`installed` false)
/// whose only reverse dependency is the subject. Yields the new registry and
/// the alternative's index.
pub open spec fn add_alternative(reg: Seq<PkgModel>, subject: int, alt: Seq<char>) -> (
    Seq<PkgModel>,
    int,
) {
    let i = find_name(reg, alt);
    if i < reg.len() {
        (
            reg.update(
                i,
                PkgModel {
                    name: reg[i].name,
                    description: reg[i].description,
                    dependencies: reg[i].dependencies,
                    reverse_dependencies: reg[i].reverse_dependencies.push(subject),
                    installed: reg[i].installed,
                },
            ),
            i,
        )
    } else {
        (
            reg.push(
                PkgModel {
                    name: alt,
                    description: Seq::empty(),
                    dependencies: Seq::empty(),
                    reverse_dependencies: seq![subject],
                    installed: false,
                },
            ),
            reg.len() as int,
        )
    }
}

/// Resolves the alternatives `alts[k..]` of one group, left to right. Yields
/// the new registry and the alternatives' indices, in order.
pub open spec fn add_group(reg: Seq<PkgModel>, subject: int, alts: Seq<Seq<char>>, k: int) -> (
    Seq<PkgModel>,
    Seq<int>,
)
    decreases alts.len() - k,
{
    if k < 0 || k >= alts.len() {
        (reg, Seq::empty())
    } else {
        let (reg1, i) = add_alternative(reg, subject, alts[k]);
        let (reg2, rest) = add_group(reg1, subject, alts, k + 1);
        (reg2, seq![i] + rest)
    }
}

/// Resolves the groups `groups[g..]`, left to right. Yields the new registry
/// and one index group per input group, in order.
pub open spec fn add_groups(
    reg: Seq<PkgModel>,
    subject: int,
    groups: Seq<Seq<Seq<char>>>,
    g: int,
) -> (Seq<PkgModel>, Seq<Seq<int>>)
    decreases groups.len() - g,
{
    if g < 0 || g >= groups.len() {
        (reg, Seq::empty())
    } else {
        let (reg1, idx) = add_group(reg, subject, groups[g], 0);
        let (reg2, rest) = add_groups(reg1, subject, groups, g + 1);
        (reg2, seq![idx] + rest)
    }
}

/// Applies one paragraph to the registry: upsert the subject, resolve every
/// alternative of every group, then replace the subject's dependency groups
/// with the resolved indices (the last stanza for a name wins).
pub open spec fn apply_paragraph(
    reg: Seq<PkgModel>,
    name: Seq<char>,
    desc: Seq<Seq<char>>,
    groups: Seq<Seq<Seq<char>>>,
) -> Seq<PkgModel> {
    let (reg1, s) = upsert_subject(reg, name, desc);
    let (reg2, dep_idx) = add_groups(reg1, s, groups, 0);
    reg2.update(
        s,
        PkgModel {
            name: reg2[s].name,
            description: reg2[s].description,
            dependencies: dep_idx,
            reverse_dependencies: reg2[s].reverse_dependencies,
            installed: reg2[s].installed,
        },
    )
}

/// Folds the paragraphs of `lines` from position `i` into the registry
/// `reg`. The fold stops at the end of the input or at the first paragraph
/// that fails to parse: a parse failure truncates ingestion of everything
/// after it.
pub open spec fn build_from(lines: Seq<Seq<char>>, i: int, reg: Seq<PkgModel>) -> Seq<PkgModel>
    decreases lines.len() - i,
{
    match scan_paragraph(lines, i, false) {
        ScanOutcome::Complete(pm, next) => {
            proof {
                lemma_scan_advances(lines, i, false);
            }
            build_from(
                lines,
                next,
                apply_paragraph(reg, pm.name, pm.description, groups_of(pm.raw_depends)),
            )
        },
        _ => reg,
    }
}

/// The registry that loading `lines` produces.
pub open spec fn build_registry(lines: Seq<Seq<char>>) -> Seq<PkgModel> {
    build_from(lines, 0, Seq::empty())
}

/// Index of the node named `name`, scanning the arena in order.
pub fn find_package(packages: &Vec<Package>, name: &str) -> (r: Option<usize>)
    ensures
        ({
            let i = find_name(packages.deep_view(), name@);
            match r {
                Some(k) => i == k && k < packages@.len(),
                None => i == packages@.len(),
            }
        }),
{
    let ghost reg = packages.deep_view();
    let n = packages.len();
    let mut j: usize = 0;
    while j < n
        invariant
            0 <= j <= n,
            n == packages@.len(),
            reg == packages.deep_view(),
            find_name(reg, name@) == find_name_from(reg, name@, j as int),
        decreases n - j,
    {
        assert(reg[j as int] == packages@[j as int]@);
        if str_eq(packages[j].name.as_str(), name) {
            return Some(j);
        }
        j = j + 1;
    }
    None
}

/// Applies one paragraph to the arena, exactly as `apply_paragraph` says.
#[verifier::loop_isolation(false)]
fn apply_paragraph_exec(packages: &mut Vec<Package>, para: Paragraph)
    ensures
        final(packages).deep_view() == apply_paragraph(
            old(packages).deep_view(),
            para.name@,
            para.description.deep_view(),
            para.dep_groups.deep_view(),
        ),
{
    let ghost reg0 = packages.deep_view();
    let Paragraph { name, description, dep_groups } = para;

    let s: usize;
    match find_package(packages, name.as_str()) {
        Some(i) => {
            packages[i].installed = true;
            packages[i].description = description;
            s = i;
        },
        None => {
            packages.push(
                Package {
                    name,
                    description,
                    dependencies: Vec::new(),
                    reverse_dependencies: Vec::new(),
                    installed: true,
                },
            );
            s = packages.len() - 1;
        },
    }
    let ghost reg1 = upsert_subject(reg0, para.name@, para.description.deep_view()).0;
    assert(packages.deep_view() =~~= reg1);
    assert(s as int == upsert_subject(reg0, para.name@, para.description.deep_view()).1);

    let ghost groups = para.dep_groups.deep_view();
    let mut dep_indices: Vec<Vec<usize>> = Vec::new();
    let mut g: usize = 0;
    while g < dep_groups.len()
        invariant
            0 <= g <= dep_groups@.len(),
            s < packages@.len(),
            groups == dep_groups.deep_view(),
            add_groups(reg1, s as int, groups, 0).0 == add_groups(
                packages.deep_view(),
                s as int,
                groups,
                g as int,
            ).0,
            add_groups(reg1, s as int, groups, 0).1 == dep_indices.deep_view().map_values(
                |idx: Seq<usize>| idx.map_values(|k: usize| k as int),
            ) + add_groups(packages.deep_view(), s as int, groups, g as int).1,
        decreases dep_groups@.len() - g,
    {
        let ghost reg_g = packages.deep_view();
        let ghost alts = groups[g as int];
        assert(alts == dep_groups@[g as int].deep_view());
        let mut alt_indices: Vec<usize> = Vec::new();
        let mut k: usize = 0;
        while k < dep_groups[g].len()
            invariant
                0 <= k <= dep_groups@[g as int]@.len(),
                g < dep_groups@.len(),
                s < packages@.len(),
                alts == dep_groups@[g as int].deep_view(),
                add_group(reg_g, s as int, alts, 0).0 == add_group(
                    packages.deep_view(),
                    s as int,
                    alts,
                    k as int,
                ).0,
                add_group(reg_g, s as int, alts, 0).1 == alt_indices@.map_values(
                    |x: usize| x as int,
                ) + add_group(packages.deep_view(), s as int, alts, k as int).1,
            decreases dep_groups@[g as int]@.len() - k,
        {
            let ghost cur = packages.deep_view();
            let ghost prev_alts = alt_indices@.map_values(|x: usize| x as int);
            let ghost alt_name = alts[k as int];
            assert(alt_name == dep_groups@[g as int]@[k as int]@);
            let alt = &dep_groups[g][k];
            match find_package(packages, alt.as_str()) {
                Some(i) => {
                    packages[i].reverse_dependencies.push(s);
                    alt_indices.push(i);
                    assert(packages.deep_view() =~~= add_alternative(cur, s as int, alt_name).0);
                },
                None => {
                    let mut rd: Vec<usize> = Vec::new();
                    rd.push(s);
                    packages.push(
                        Package {
                            name: alt.clone(),
                            description: Vec::new(),
                            dependencies: Vec::new(),
                            reverse_dependencies: rd,
                            installed: false,
                        },
                    );
                    alt_indices.push(packages.len() - 1);
                    assert(packages.deep_view() =~~= add_alternative(cur, s as int, alt_name).0);
                },
            }
            proof {
                let i = add_alternative(cur, s as int, alt_name).1;
                assert(alt_indices@.map_values(|x: usize| x as int) =~= prev_alts.push(i));
                let rest = add_group(packages.deep_view(), s as int, alts, k as int + 1).1;
                assert(prev_alts + (seq![i] + rest) =~= prev_alts.push(i) + rest);
            }
            k = k + 1;
        }
        proof {
            let alt_model = alt_indices@.map_values(|x: usize| x as int);
            assert(alt_model + Seq::<int>::empty() =~= alt_model);
        }
        let ghost prev = dep_indices.deep_view().map_values(
            |idx: Seq<usize>| idx.map_values(|k: usize| k as int),
        );
        let ghost alt_model = alt_indices@.map_values(|x: usize| x as int);
        dep_indices.push(alt_indices);
        proof {
            assert(dep_indices.deep_view().map_values(
                |idx: Seq<usize>| idx.map_values(|k: usize| k as int),
            ) =~~= prev.push(alt_model));
            let rest = add_groups(packages.deep_view(), s as int, groups, g as int + 1).1;
            assert(prev + (seq![alt_model] + rest) =~~= prev.push(alt_model) + rest);
        }
        g = g + 1;
    }
    packages[s].dependencies = dep_indices;
    assert(packages.deep_view() =~~= apply_paragraph(
        reg0,
        para.name@,
        para.description.deep_view(),
        para.dep_groups.deep_view(),
    ));
}

/// What the name-sorted listing of a registry is: every arena index exactly
/// once, ordered by the nodes' names.
pub open spec fn is_listing(order: Seq<usize>, reg: Seq<PkgModel>) -> bool {
    &&& order.len() == reg.len()
    &&& (forall|j: int| 0 <= j < order.len() ==> order[j] < reg.len())
    &&& order.no_duplicates()
    &&& (forall|i: usize| i < reg.len() ==> order.contains(i))
    &&& (forall|j: int| #![trigger order[j]]
        0 <= j < order.len() - 1 ==> lex_le(
            reg[order[j] as int].name,
            reg[order[j + 1] as int].name,
        ))
}

/// The position at which a node named `name` sorts into the listing built so
/// far: the first entry whose name is at or after `name`.
fn insertion_point(packages: &Vec<Package>, order: &Vec<usize>, name: &str) -> (p: usize)
    requires
        forall|j: int| 0 <= j < order@.len() ==> order@[j] < packages@.len(),
    ensures
        p <= order@.len(),
        forall|j: int|
            0 <= j < p ==> !lex_le(name@, packages.deep_view()[order@[j] as int].name),
        p < order@.len() ==> lex_le(name@, packages.deep_view()[order@[p as int] as int].name),
{
    let m = order.len();
    let mut p: usize = 0;
    while p < m
        invariant
            0 <= p <= m,
            m == order@.len(),
            forall|j: int| 0 <= j < order@.len() ==> order@[j] < packages@.len(),
            forall|j: int|
                0 <= j < p ==> !lex_le(name@, packages.deep_view()[order@[j] as int].name),
        decreases m - p,
    {
        assert(packages.deep_view()[order@[p as int] as int] == packages@[order@[p as int] as int]@);
        if str_le(name, packages[order[p]].name.as_str()) {
            return p;
        }
        p = p + 1;
    }
    p
}

/// The registry's nodes as arena indices sorted by name: the deterministic
/// listing handed to a consumer that walks all packages.
#[verifier::loop_isolation(false)]
pub fn get_packages_vec(packages: &Vec<Package>) -> (r: Vec<usize>)
    ensures
        is_listing(r@, packages.deep_view()),
{
    let ghost reg = packages.deep_view();
    let n = packages.len();
    let mut order: Vec<usize> = Vec::new();
    let mut idx: usize = 0;
    while idx < n
        invariant
            0 <= idx <= n,
            order@.len() == idx,
            forall|j: int| 0 <= j < order@.len() ==> order@[j] < idx,
            order@.no_duplicates(),
            forall|i: usize| i < idx ==> order@.contains(i),
            forall|j: int| #![trigger order@[j]]
                0 <= j < order@.len() - 1 ==> lex_le(
                    reg[order@[j] as int].name,
                    reg[order@[j + 1] as int].name,
                ),
        decreases n - idx,
    {
        let ghost old_order = order@;
        assert(reg[idx as int] == packages@[idx as int]@);
        let p = insertion_point(packages, &order, packages[idx].name.as_str());
        order.insert(p, idx);
        proof {
            let new_order = order@;
            assert(new_order =~= old_order.insert(p as int, idx));
            assert forall|i: usize| i < idx + 1 implies new_order.contains(i) by {
                if i < idx {
                    assert(old_order.contains(i));
                    let j = choose|j: int| 0 <= j < old_order.len() && old_order[j] == i;
                    if j < p {
                        assert(new_order[j] == i);
                    } else {
                        assert(new_order[j + 1] == i);
                    }
                } else {
                    assert(new_order[p as int] == idx);
                }
            };
            assert forall|j: int| #![trigger new_order[j]]
                0 <= j < new_order.len() - 1 implies lex_le(
                reg[new_order[j] as int].name,
                reg[new_order[j + 1] as int].name,
            ) by {
                let nm = reg[idx as int].name;
                if j + 1 < p {
                    assert(new_order[j] == old_order[j]);
                    assert(new_order[j + 1] == old_order[j + 1]);
                } else if j + 1 == p {
                    assert(new_order[j] == old_order[j]);
                    assert(new_order[j + 1] == idx);
                    lemma_lex_le_total(nm, reg[old_order[j] as int].name);
                } else if j == p {
                    assert(new_order[j] == idx);
                    assert(new_order[j + 1] == old_order[j]);
                } else {
                    assert(new_order[j] == old_order[j - 1]);
                    assert(new_order[j + 1] == old_order[j]);
                }
            };
        }
        idx = idx + 1;
    }
    order
}

/// The loaded snapshot: the arena of nodes and its name-sorted listing.
pub struct AppData {
    /// The registry: one node per distinct name, in creation order.
    pub packages: Vec<Package>,
    /// Arena indices sorted by package name.
    pub order: Vec<usize>,
}

impl AppData {
    /// Loads the snapshot from the lines of a status database.
    pub fn new_from_lines(lines: &Vec<String>) -> (r: AppData)
        ensures
            r.packages.deep_view() == build_registry(lines.deep_view()),
            is_listing(r.order@, r.packages.deep_view()),
    {
        let packages = get_packages_hashmap(lines);
        let order = get_packages_vec(&packages);
        AppData { packages, order }
    }
}

/// Loads the whole input: drives the stanza reader to exhaustion, resolving
/// each paragraph into the name-keyed arena. The load stops at the end of the
/// input or at the first paragraph that fails to parse.
#[verifier::loop_isolation(false)]
pub fn get_packages_hashmap(lines: &Vec<String>) -> (r: Vec<Package>)
    ensures
        r.deep_view() == build_registry(lines.deep_view()),
{
    let ghost ldv = lines.deep_view();
    let mut packages: Vec<Package> = Vec::new();
    let mut pos: usize = 0;
    assert(packages.deep_view() =~= Seq::<PkgModel>::empty());
    loop
        invariant
            pos <= lines@.len(),
            build_from(ldv, pos as int, packages.deep_view()) == build_registry(ldv),
        decreases ldv.len() - pos,
    {
        match read_package_from_lines(lines, pos, false) {
            ReadOutcome::Complete(para, next) => {
                let ghost pm = scan_paragraph(ldv, pos as int, false)->Complete_0;
                let ghost before = packages.deep_view();
                apply_paragraph_exec(&mut packages, para);
                assert(packages.deep_view() == apply_paragraph(
                    before,
                    pm.name,
                    pm.description,
                    groups_of(pm.raw_depends),
                ));
                pos = next;
            },
            _ => {
                return packages;
            },
        }
    }
}

} // verus!
