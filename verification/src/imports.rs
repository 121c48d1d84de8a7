//! Import resolution: turning one raw import specifier, found inside a known
//! file, into either the project file it refers to or an external
//! classification. Resolution never fails; in the worst case a specifier is
//! classified as external under its original, unmodified text.
//!
//! The order of decisions, for each specifier:
//! 1. a specifier starting with `./` or `../` is walked relative to the
//!    importing file's directory and probed against the known files;
//! 2. failing that, the alias rules are tried in declared order: the first
//!    rule whose pattern is a prefix of the specifier *and* whose substituted
//!    path probes to a known file wins;
//! 3. failing both, the specifier is external.

use vstd::prelude::*;

use crate::config::ModuleResolutionItem;
use crate::graph::Node;
use crate::paths::{appended, join_segments, split_slash, str_starts_with};
use crate::paths::{apply_segments, parent_segments, raw_split, walked_path};

verus! {

/// A raw import specifier as it appeared in source text.
#[derive(Debug)]
pub struct UnresolvedImport {
    pub module_name: String,
}

/// The outcome of resolving one specifier: either a known project file, or an
/// external module kept under its original name.
#[derive(Debug)]
pub enum ResolvedImport {
    InternalImport { target_path: String, target_node_id: String },
    ExternalImport { target_module_name: String },
}

/// The mathematical shape of a resolution outcome, over character sequences.
pub enum ImportModel {
    Internal { target_path: Seq<char>, target_node_id: Seq<char> },
    External { target_module_name: Seq<char> },
}

impl View for ResolvedImport {
    type V = ImportModel;

    open spec fn view(&self) -> ImportModel {
        match self {
            ResolvedImport::InternalImport { target_path, target_node_id } => (
            ImportModel::Internal {
                target_path: target_path@,
                target_node_id: target_node_id@,
            }),
            ResolvedImport::ExternalImport { target_module_name } => (ImportModel::External {
                target_module_name: target_module_name@,
            }),
        }
    }
}

impl PartialEq for ResolvedImport {
    fn eq(&self, other: &Self) -> (r: bool) {
        match self {
            ResolvedImport::InternalImport { target_path: p1, target_node_id: i1 } => {
                match other {
                    ResolvedImport::InternalImport { target_path: p2, target_node_id: i2 } => {
                        *p1 == *p2 && *i1 == *i2
                    },
                    ResolvedImport::ExternalImport { .. } => false,
                }
            },
            ResolvedImport::ExternalImport { target_module_name: n1 } => {
                match other {
                    ResolvedImport::InternalImport { .. } => false,
                    ResolvedImport::ExternalImport { target_module_name: n2 } => *n1 == *n2,
                }
            },
        }
    }
}

impl vstd::std_specs::cmp::PartialEqSpecImpl for ResolvedImport {
    open spec fn obeys_eq_spec() -> bool {
        true
    }

    open spec fn eq_spec(&self, other: &Self) -> bool {
        match self {
            ResolvedImport::InternalImport { target_path: p1, target_node_id: i1 } => {
                match other {
                    ResolvedImport::InternalImport { target_path: p2, target_node_id: i2 } => {
                        p1@ == p2@ && i1@ == i2@
                    },
                    ResolvedImport::ExternalImport { .. } => false,
                }
            },
            ResolvedImport::ExternalImport { target_module_name: n1 } => {
                match other {
                    ResolvedImport::InternalImport { .. } => false,
                    ResolvedImport::ExternalImport { target_module_name: n2 } => n1@ == n2@,
                }
            },
        }
    }
}

/// The fixed, ordered list of on-disk paths probed for a module path with no
/// confirmed extension: the exact path first, then the four extensions with
/// typed sources ahead of untyped, then the four directory-index fallbacks.
pub open spec fn candidate_list(p: Seq<char>) -> Seq<Seq<char>> {
    seq![
        p,
        p + ".tsx"@,
        p + ".ts"@,
        p + ".jsx"@,
        p + ".js"@,
        p + "/index.tsx"@,
        p + "/index.ts"@,
        p + "/index.jsx"@,
        p + "/index.js"@,
    ]
}

/// The relative paths of a node sequence, in order.
pub open spec fn node_paths(nodes: Seq<Node>) -> Seq<Seq<char>> {
    nodes.map_values(|n: Node| n.path_relative@)
}

/// The index of the first path equal to `target`, if any.
pub open spec fn find_path(paths: Seq<Seq<char>>, target: Seq<char>) -> Option<int>
    decreases paths.len(),
{
    if paths.len() == 0 {
        None
    } else if paths.first() == target {
        Some(0int)
    } else {
        match find_path(paths.drop_first(), target) {
            Some(i) => Some(i + 1),
            None => None,
        }
    }
}

/// The first candidate, in candidate order, that names a known path: the
/// winning candidate together with the index of the file it names.
pub open spec fn first_hit(cands: Seq<Seq<char>>, paths: Seq<Seq<char>>) -> Option<
    (Seq<char>, int),
>
    decreases cands.len(),
{
    if cands.len() == 0 {
        None
    } else {
        match find_path(paths, cands.first()) {
            Some(n) => Some((cands.first(), n)),
            None => first_hit(cands.drop_first(), paths),
        }
    }
}

/// Whether a specifier is relative: it starts with `./` or `../`.
pub open spec fn is_relative_specifier(name: Seq<char>) -> bool {
    name.len() >= 2 && name[0] == '.' && (name[1] == '/' || (name.len() >= 3 && name[1] == '.'
        && name[2] == '/'))
}

/// The specifier with an alias rule's pattern, known to be a prefix, replaced
/// by the rule's replacement.
pub open spec fn substituted(name: Seq<char>, rule: ModuleResolutionItem) -> Seq<char> {
    rule.replacement@ + name.skip(rule.pattern@.len() as int)
}

/// The hit, if any, of resolving a relative specifier against the importing
/// file's directory.
pub open spec fn relative_hit(
    importer: Seq<char>,
    name: Seq<char>,
    paths: Seq<Seq<char>>,
) -> Option<(Seq<char>, int)> {
    first_hit(candidate_list(walked_path(importer, name)), paths)
}

/// The hit of the first alias rule whose pattern is a prefix of the specifier
/// and whose substituted path probes to a known file. A rule that matches the
/// prefix but resolves no candidate does not block later rules.
pub open spec fn alias_hit(
    name: Seq<char>,
    paths: Seq<Seq<char>>,
    rules: Seq<ModuleResolutionItem>,
) -> Option<(Seq<char>, int)>
    decreases rules.len(),
{
    if rules.len() == 0 {
        None
    } else if rules.first().pattern@.is_prefix_of(name) && first_hit(
        candidate_list(substituted(name, rules.first())),
        paths,
    ) is Some {
        first_hit(candidate_list(substituted(name, rules.first())), paths)
    } else {
        alias_hit(name, paths, rules.drop_first())
    }
}

/// The file a specifier resolves to, if any: the relative walk when the
/// specifier is relative and the walk hits, otherwise the first winning alias
/// rule. `None` means the specifier is external.
pub open spec fn resolved_target(
    name: Seq<char>,
    importer: Seq<char>,
    paths: Seq<Seq<char>>,
    rules: Seq<ModuleResolutionItem>,
) -> Option<(Seq<char>, int)> {
    if is_relative_specifier(name) && relative_hit(importer, name, paths) is Some {
        relative_hit(importer, name, paths)
    } else {
        alias_hit(name, paths, rules)
    }
}

/// The alias rules carried by a configuration, or none.
pub open spec fn rules_seq(module_resolution: Option<Vec<ModuleResolutionItem>>) -> Seq<
    ModuleResolutionItem,
> {
    match module_resolution {
        Some(v) => v@,
        None => Seq::empty(),
    }
}

/// What resolving one specifier returns, over a node sequence: the winning
/// candidate path and that file's node id, or the original specifier as an
/// external name.
pub open spec fn resolution_model(
    name: Seq<char>,
    importer: Seq<char>,
    nodes: Seq<Node>,
    rules: Seq<ModuleResolutionItem>,
) -> ImportModel {
    match resolved_target(name, importer, node_paths(nodes), rules) {
        Some(hit) => (ImportModel::Internal {
            target_path: hit.0,
            target_node_id: nodes[hit.1].id@,
        }),
        None => (ImportModel::External { target_module_name: name }),
    }
}

/// `find_path` returns the first index holding `target`, and `None` exactly
/// when no index holds it.
pub proof fn lemma_find_path_props(paths: Seq<Seq<char>>, target: Seq<char>)
    ensures
        match find_path(paths, target) {
            Some(i) => 0 <= i < paths.len() && paths[i] == target && (forall|j: int|
                0 <= j < i ==> paths[j] != target),
            None => forall|j: int| 0 <= j < paths.len() ==> paths[j] != target,
        },
    decreases paths.len(),
{
    if paths.len() > 0 && paths.first() != target {
        let rest = paths.drop_first();
        lemma_find_path_props(rest, target);
        match find_path(rest, target) {
            Some(i) => {
                assert(paths[i + 1] == rest[i]);
                assert forall|j: int| 0 <= j < i + 1 implies paths[j] != target by {
                    if j > 0 {
                        assert(paths[j] == rest[j - 1]);
                    }
                }
            },
            None => {
                assert forall|j: int| 0 <= j < paths.len() implies paths[j] != target by {
                    if j > 0 {
                        assert(paths[j] == rest[j - 1]);
                    }
                }
            },
        }
    }
}

/// Skipping candidates that find no path does not change the first hit.
pub proof fn lemma_first_hit_skip(cands: Seq<Seq<char>>, paths: Seq<Seq<char>>, i: int)
    requires
        0 <= i <= cands.len(),
        forall|j: int| 0 <= j < i ==> find_path(paths, cands[j]) is None,
    ensures
        first_hit(cands, paths) == first_hit(cands.skip(i), paths),
    decreases i,
{
    if i > 0 {
        assert(find_path(paths, cands.first()) is None);
        lemma_first_hit_skip(cands.drop_first(), paths, i - 1);
        assert(cands.drop_first().skip(i - 1) =~= cands.skip(i));
    } else {
        assert(cands.skip(0) =~= cands);
    }
}

/// Skipping alias rules that do not win does not change the alias hit.
pub proof fn lemma_alias_hit_skip(
    name: Seq<char>,
    paths: Seq<Seq<char>>,
    rules: Seq<ModuleResolutionItem>,
    i: int,
)
    requires
        0 <= i <= rules.len(),
        forall|j: int|
            0 <= j < i ==> !(rules[j].pattern@.is_prefix_of(name) && first_hit(
                candidate_list(substituted(name, rules[j])),
                paths,
            ) is Some),
    ensures
        alias_hit(name, paths, rules) == alias_hit(name, paths, rules.skip(i)),
    decreases i,
{
    if i > 0 {
        assert(!(rules.first().pattern@.is_prefix_of(name) && first_hit(
            candidate_list(substituted(name, rules.first())),
            paths,
        ) is Some)) by {
            assert(rules[0] == rules.first());
        }
        lemma_alias_hit_skip(name, paths, rules.drop_first(), i - 1);
        assert(rules.drop_first().skip(i - 1) =~= rules.skip(i));
    } else {
        assert(rules.skip(0) =~= rules);
    }
}

/// A winning candidate hit names a file index within the path list, and the
/// winning candidate is exactly that file's path.
pub proof fn lemma_first_hit_bounds(cands: Seq<Seq<char>>, paths: Seq<Seq<char>>)
    ensures
        first_hit(cands, paths) matches Some(hit) ==> 0 <= hit.1 < paths.len() && paths[hit.1]
            == hit.0,
    decreases cands.len(),
{
    if cands.len() > 0 {
        match find_path(paths, cands.first()) {
            Some(n) => {
                lemma_find_path_props(paths, cands.first());
            },
            None => {
                lemma_first_hit_bounds(cands.drop_first(), paths);
            },
        }
    }
}

/// A winning alias hit names a file index within the path list, and the
/// winning candidate is exactly that file's path.
pub proof fn lemma_alias_hit_bounds(
    name: Seq<char>,
    paths: Seq<Seq<char>>,
    rules: Seq<ModuleResolutionItem>,
)
    ensures
        alias_hit(name, paths, rules) matches Some(hit) ==> 0 <= hit.1 < paths.len()
            && paths[hit.1] == hit.0,
    decreases rules.len(),
{
    if rules.len() > 0 {
        if rules.first().pattern@.is_prefix_of(name) && first_hit(
            candidate_list(substituted(name, rules.first())),
            paths,
        ) is Some {
            lemma_first_hit_bounds(candidate_list(substituted(name, rules.first())), paths);
        } else {
            lemma_alias_hit_bounds(name, paths, rules.drop_first());
        }
    }
}

/// Every internal resolution points at a known file, and the target path it
/// carries is exactly that file's relative path: resolution never invents a
/// file.
pub proof fn lemma_resolved_target_bounds(
    name: Seq<char>,
    importer: Seq<char>,
    paths: Seq<Seq<char>>,
    rules: Seq<ModuleResolutionItem>,
)
    ensures
        resolved_target(name, importer, paths, rules) matches Some(hit) ==> 0 <= hit.1
            < paths.len() && paths[hit.1] == hit.0,
{
    lemma_first_hit_bounds(candidate_list(walked_path(importer, name)), paths);
    lemma_alias_hit_bounds(name, paths, rules);
}

/// Candidate generation is a pure function of the module path: two candidate
/// lists computed for equal paths are the same list, with the same nine
/// elements in the same order.
pub proof fn lemma_candidates_deterministic(r1: Seq<Seq<char>>, r2: Seq<Seq<char>>, p: Seq<char>)
    requires
        r1 == candidate_list(p),
        r2 == candidate_list(p),
    ensures
        r1 == r2,
        r1.len() == 9,
{
}

/// Typed extensions take priority: when the exact path and the `.tsx`
/// candidate miss but a `.ts` file is known, resolution picks the `.ts`
/// file, whatever lower-priority candidates (such as `.js`) would also hit.
pub proof fn lemma_extension_priority(p: Seq<char>, paths: Seq<Seq<char>>, n: int)
    requires
        find_path(paths, p) is None,
        find_path(paths, p + ".tsx"@) is None,
        find_path(paths, p + ".ts"@) == Some(n),
    ensures
        first_hit(candidate_list(p), paths) == Some((p + ".ts"@, n)),
{
    let cands = candidate_list(p);
    let c1 = cands.drop_first();
    let c2 = c1.drop_first();
    assert(cands.first() == p);
    assert(c1.first() == cands[1]);
    assert(c2.first() == cands[2]);
    assert(first_hit(cands, paths) == first_hit(c1, paths));
    assert(first_hit(c1, paths) == first_hit(c2, paths));
    assert(first_hit(c2, paths) == Some((p + ".ts"@, n)));
}

/// An alias rule whose pattern matches but whose candidates all miss does not
/// block later rules: with two rules where the first yields no hit and the
/// second resolves the original specifier, the second rule's hit wins.
pub proof fn lemma_alias_short_circuit(
    name: Seq<char>,
    paths: Seq<Seq<char>>,
    rule1: ModuleResolutionItem,
    rule2: ModuleResolutionItem,
    hit: (Seq<char>, int),
)
    requires
        first_hit(candidate_list(substituted(name, rule1)), paths) is None,
        rule2.pattern@.is_prefix_of(name),
        first_hit(candidate_list(substituted(name, rule2)), paths) == Some(hit),
    ensures
        alias_hit(name, paths, seq![rule1, rule2]) == Some(hit),
{
    let rules = seq![rule1, rule2];
    assert(rules.first() == rule1);
    assert(rules.drop_first() =~= seq![rule2]);
    assert(seq![rule2].first() == rule2);
    assert(alias_hit(name, paths, seq![rule2]) == Some(hit));
}

/// The ordered candidate paths probed for a module path: the path itself,
/// with each supported extension, and each directory-index fallback.
pub fn create_file_path_candidates(base_path: &String) -> (r: Vec<String>)
    ensures
        r.deep_view() == candidate_list(base_path@),
{
    let mut r: Vec<String> = Vec::new();
    r.push(base_path.clone());
    r.push(appended(base_path.as_str(), ".tsx"));
    r.push(appended(base_path.as_str(), ".ts"));
    r.push(appended(base_path.as_str(), ".jsx"));
    r.push(appended(base_path.as_str(), ".js"));
    r.push(appended(base_path.as_str(), "/index.tsx"));
    r.push(appended(base_path.as_str(), "/index.ts"));
    r.push(appended(base_path.as_str(), "/index.jsx"));
    r.push(appended(base_path.as_str(), "/index.js"));
    proof {
        assert(r.deep_view() =~= candidate_list(base_path@));
    }
    r
}

/// The index of the known file whose relative path equals `target`, if any.
pub(crate) fn find_node_index(nodes: &Vec<Node>, target: &String) -> (r: Option<usize>)
    ensures
        match r {
            Some(i) => i < nodes@.len() && find_path(node_paths(nodes@), target@) == Some(
                i as int,
            ),
            None => find_path(node_paths(nodes@), target@) is None,
        },
{
    let mut i: usize = 0;
    while i < nodes.len()
        invariant
            i <= nodes@.len(),
            forall|j: int| 0 <= j < i ==> node_paths(nodes@)[j] != target@,
        decreases nodes@.len() - i,
    {
        if nodes[i].path_relative == *target {
            proof {
                lemma_find_path_props(node_paths(nodes@), target@);
                assert(node_paths(nodes@)[i as int] == target@);
            }
            return Some(i);
        }
        proof {
            assert(node_paths(nodes@)[i as int] == nodes@[i as int].path_relative@);
        }
        i = i + 1;
    }
    proof {
        lemma_find_path_props(node_paths(nodes@), target@);
    }
    None
}

/// Probes the candidates in order and returns the first that names a known
/// file, as an internal import.
fn probe_candidates(candidates: &Vec<String>, nodes: &Vec<Node>) -> (r: Option<ResolvedImport>)
    ensures
        match first_hit(candidates.deep_view(), node_paths(nodes@)) {
            Some(hit) => match r {
                Some(ri) => ri@ == (ImportModel::Internal {
                    target_path: hit.0,
                    target_node_id: nodes@[hit.1].id@,
                }),
                None => false,
            },
            None => r is None,
        },
{
    let ghost cands = candidates.deep_view();
    let ghost paths = node_paths(nodes@);
    let mut i: usize = 0;
    while i < candidates.len()
        invariant
            i <= candidates@.len(),
            cands == candidates.deep_view(),
            paths == node_paths(nodes@),
            forall|j: int| 0 <= j < i ==> find_path(paths, cands[j]) is None,
        decreases candidates@.len() - i,
    {
        proof {
            assert(cands[i as int] == candidates@[i as int]@);
        }
        match find_node_index(nodes, &candidates[i]) {
            Some(n) => {
                let ri = ResolvedImport::InternalImport {
                    target_path: candidates[i].clone(),
                    target_node_id: nodes[n].id.clone(),
                };
                proof {
                    lemma_first_hit_skip(cands, paths, i as int);
                    assert(cands.skip(i as int).first() == cands[i as int]);
                    assert(first_hit(cands, paths) == Some((cands[i as int], n as int)));
                }
                return Some(ri);
            },
            None => {
                i = i + 1;
            },
        }
    }
    proof {
        lemma_first_hit_skip(cands, paths, candidates@.len() as int);
        assert(cands.skip(candidates@.len() as int) =~= Seq::<Seq<char>>::empty());
    }
    None
}

/// Resolves a relative specifier: walks its segments from the importing
/// file's directory and probes the resulting path's candidates.
pub fn resolve_relative_path_import(
    unresolved_import: &UnresolvedImport,
    node: &Node,
    nodes: &Vec<Node>,
) -> (r: Option<ResolvedImport>)
    ensures
        match relative_hit(
            node.path_relative@,
            unresolved_import.module_name@,
            node_paths(nodes@),
        ) {
            Some(hit) => match r {
                Some(ri) => ri@ == (ImportModel::Internal {
                    target_path: hit.0,
                    target_node_id: nodes@[hit.1].id@,
                }),
                None => false,
            },
            None => r is None,
        },
{
    let ghost importer = node.path_relative@;
    let ghost spec_name = unresolved_import.module_name@;
    let mut dir = split_slash(node.path_relative.as_str());
    let ghost dir_full = dir.deep_view();
    dir.pop();
    proof {
        assert(dir.deep_view() =~= dir_full.drop_last());
        assert(dir.deep_view() == parent_segments(importer));
    }
    let segs = split_slash(unresolved_import.module_name.as_str());
    let ghost target = apply_segments(parent_segments(importer), raw_split(spec_name));
    proof {
        assert(segs.deep_view().skip(0) =~= segs.deep_view());
    }
    let mut i: usize = 0;
    while i < segs.len()
        invariant
            i <= segs@.len(),
            apply_segments(dir.deep_view(), segs.deep_view().skip(i as int)) == target,
        decreases segs@.len() - i,
    {
        let ghost old_dir = dir.deep_view();
        let ghost rest = segs.deep_view().skip(i as int);
        proof {
            assert(rest.first() == segs.deep_view()[i as int]);
            assert(segs.deep_view()[i as int] == segs@[i as int]@);
            assert(rest.drop_first() =~= segs.deep_view().skip(i + 1));
        }
        let seg = &segs[i];
        let n = seg.as_str().unicode_len();
        if n == 0 {
            // an empty piece, from a doubled or trailing slash: a no-op
        } else if n == 1 && seg.as_str().get_char(0) == '.' {
            // the current directory: a no-op
        } else if n == 2 && seg.as_str().get_char(0) == '.' && seg.as_str().get_char(1) == '.' {
            if dir.len() > 0 {
                dir.pop();
                proof {
                    assert(dir.deep_view() =~= old_dir.drop_last());
                }
            }
        } else {
            dir.push(seg.clone());
            proof {
                assert(dir.deep_view() =~= old_dir.push(seg@));
            }
        }
        i = i + 1;
    }
    proof {
        assert(segs.deep_view().skip(segs@.len() as int) =~= Seq::<Seq<char>>::empty());
        assert(dir.deep_view() == target);
    }
    let base_path = join_segments(&dir);
    proof {
        assert(base_path@ == walked_path(importer, spec_name));
    }
    let candidates = create_file_path_candidates(&base_path);
    probe_candidates(&candidates, nodes)
}

/// Resolves a specifier through one alias rule whose pattern is a prefix of
/// it: replaces the prefix with the rule's replacement and probes the
/// resulting path's candidates.
pub fn resolve_resolution_with_substitution(
    unresolved_import: &UnresolvedImport,
    nodes: &Vec<Node>,
    resolution_item: &ModuleResolutionItem,
) -> (r: Option<ResolvedImport>)
    requires
        resolution_item.pattern@.is_prefix_of(unresolved_import.module_name@),
    ensures
        match first_hit(
            candidate_list(substituted(unresolved_import.module_name@, *resolution_item)),
            node_paths(nodes@),
        ) {
            Some(hit) => match r {
                Some(ri) => ri@ == (ImportModel::Internal {
                    target_path: hit.0,
                    target_node_id: nodes@[hit.1].id@,
                }),
                None => false,
            },
            None => r is None,
        },
{
    let plen = resolution_item.pattern.as_str().unicode_len();
    let mlen = unresolved_import.module_name.as_str().unicode_len();
    let suffix = unresolved_import.module_name.as_str().substring_char(plen, mlen);
    let relative_path = appended(resolution_item.replacement.as_str(), suffix);
    proof {
        assert(unresolved_import.module_name@.subrange(plen as int, mlen as int)
            =~= unresolved_import.module_name@.skip(plen as int));
        assert(relative_path@ == substituted(unresolved_import.module_name@, *resolution_item));
    }
    let candidates = create_file_path_candidates(&relative_path);
    probe_candidates(&candidates, nodes)
}

/// Resolves one raw specifier: the relative walk first where the specifier is
/// relative, then the alias rules in order, and finally the external
/// classification under the original specifier text. Never fails.
pub fn resolve_import(
    unresolved_import: UnresolvedImport,
    node: &Node,
    nodes: &Vec<Node>,
    module_resolution: &Option<Vec<ModuleResolutionItem>>,
) -> (r: ResolvedImport)
    ensures
        r@ == resolution_model(
            unresolved_import.module_name@,
            node.path_relative@,
            nodes@,
            rules_seq(*module_resolution),
        ),
{
    let ghost name = unresolved_import.module_name@;
    let ghost paths = node_paths(nodes@);
    let ghost rules = rules_seq(*module_resolution);
    let rel1 = str_starts_with(unresolved_import.module_name.as_str(), "./");
    let rel2 = str_starts_with(unresolved_import.module_name.as_str(), "../");
    proof {
        reveal_strlit("./");
        reveal_strlit("../");
        if rel1 {
            assert(name[0] == name.subrange(0, 2)[0] && name[1] == name.subrange(0, 2)[1]);
        }
        if rel2 {
            assert(name[0] == name.subrange(0, 3)[0] && name[1] == name.subrange(0, 3)[1]
                && name[2] == name.subrange(0, 3)[2]);
        }
        if name.len() >= 2 && name[0] == '.' && name[1] == '/' {
            assert(name.subrange(0, 2) =~= "./"@);
        }
        if name.len() >= 3 && name[0] == '.' && name[1] == '.' && name[2] == '/' {
            assert(name.subrange(0, 3) =~= "../"@);
        }
        assert((rel1 || rel2) == is_relative_specifier(name));
    }
    if rel1 || rel2 {
        match resolve_relative_path_import(&unresolved_import, node, nodes) {
            Some(resolved) => {
                return resolved;
            },
            None => {},
        }
    }
    match module_resolution {
        Some(rule_items) => {
            let mut j: usize = 0;
            while j < rule_items.len()
                invariant
                    j <= rule_items@.len(),
                    rules == rule_items@,
                    rules == rules_seq(*module_resolution),
                    paths == node_paths(nodes@),
                    name == unresolved_import.module_name@,
                    forall|k: int|
                        0 <= k < j ==> !(rule_items@[k].pattern@.is_prefix_of(name) && first_hit(
                            candidate_list(substituted(name, rule_items@[k])),
                            paths,
                        ) is Some),
                    is_relative_specifier(name) ==> relative_hit(
                        node.path_relative@,
                        name,
                        paths,
                    ) is None,
                decreases rule_items@.len() - j,
            {
                let rule = &rule_items[j];
                if str_starts_with(
                    unresolved_import.module_name.as_str(),
                    rule.pattern.as_str(),
                ) {
                    match resolve_resolution_with_substitution(&unresolved_import, nodes, rule) {
                        Some(resolved) => {
                            proof {
                                lemma_alias_hit_skip(name, paths, rules, j as int);
                                assert(rule_items@[j as int] == rules[j as int]);
                                assert(rules.skip(j as int).len() > 0);
                                assert(rules.skip(j as int).first() == rules[j as int]);
                                let fh = first_hit(
                                    candidate_list(substituted(name, rules[j as int])),
                                    paths,
                                );
                                assert(fh is Some);
                                assert(alias_hit(name, paths, rules.skip(j as int)) == fh);
                                assert(alias_hit(name, paths, rules) == fh);
                                assert(resolved_target(name, node.path_relative@, paths, rules)
                                    == fh);
                            }
                            return resolved;
                        },
                        None => {},
                    }
                }
                j = j + 1;
            }
            proof {
                lemma_alias_hit_skip(name, paths, rules, rule_items@.len() as int);
                assert(rules.skip(rule_items@.len() as int)
                    =~= Seq::<ModuleResolutionItem>::empty());
            }
        },
        None => {},
    }
    ResolvedImport::ExternalImport { target_module_name: unresolved_import.module_name }
}

/// Resolves every raw specifier of one importing file, in order.
pub fn resolve_imports(
    unresolved_imports: Vec<UnresolvedImport>,
    node: &Node,
    nodes: &Vec<Node>,
    module_resolution: &Option<Vec<ModuleResolutionItem>>,
) -> (r: Vec<ResolvedImport>)
    ensures
        r@.len() == unresolved_imports@.len(),
        forall|i: int|
            0 <= i < r@.len() ==> #[trigger] r@[i]@ == resolution_model(
                unresolved_imports@[i].module_name@,
                node.path_relative@,
                nodes@,
                rules_seq(*module_resolution),
            ),
{
    let mut r: Vec<ResolvedImport> = Vec::new();
    let mut i: usize = 0;
    let ghost inputs = unresolved_imports@;
    let mut remaining = unresolved_imports;
    while r.len() < remaining.len()
        invariant
            r@.len() <= remaining@.len(),
            remaining@ == inputs,
            forall|k: int|
                0 <= k < r@.len() ==> #[trigger] r@[k]@ == resolution_model(
                    inputs[k].module_name@,
                    node.path_relative@,
                    nodes@,
                    rules_seq(*module_resolution),
                ),
        decreases remaining@.len() - r@.len(),
    {
        let idx = r.len();
        let one = UnresolvedImport { module_name: remaining[idx].module_name.clone() };
        let resolved = resolve_import(one, node, nodes, module_resolution);
        r.push(resolved);
    }
    r
}

} // verus!
