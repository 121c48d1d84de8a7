//! The graph produced by a build: one node per project source file, one node
//! per distinct externally imported package, and one directed edge per import.

use vstd::prelude::*;

use crate::config::ModuleResolutionItem;
use crate::imports::{find_path, node_paths, resolved_target, ResolvedImport, UnresolvedImport};
use crate::paths::{raw_split, split_slash};

verus! {

/// One dependency graph: a title, the node collection (all internal nodes
/// first, in discovery order, then external nodes in first-encountered order),
/// and the edge collection.
#[derive(Debug)]
pub struct Graph {
    pub title: String,
    pub nodes: Vec<Node>,
    pub edges: Vec<Edge>,
}

/// One node: a project source file (internal) or an externally imported
/// package (external). An external node has no path; both path fields are
/// empty by construction.
#[derive(Debug, Clone)]
pub struct Node {
    pub id: String,
    pub node_type: NodeType,
    pub label: String,
    pub path_absolute: String,
    pub path_relative: String,
}

/// Whether a node stands for a file of the scanned tree or for an external
/// package.
#[derive(Debug, Clone, Copy, PartialEq, Eq, Structural)]
pub enum NodeType {
    Internal,
    External,
}

/// One directed edge: the file with id `source_id` imports the node with id
/// `target_id`.
#[derive(Debug, Clone)]
pub struct Edge {
    pub id: String,
    pub source_id: String,
    pub target_id: String,
}

/// One discovered project file handed to a graph build: its two paths and its
/// raw import specifiers in source-appearance order.
pub struct SourceFile {
    pub path_absolute: String,
    pub path_relative: String,
    pub imports: Vec<UnresolvedImport>,
}

/// The one input error a graph build detects itself: two discovered files
/// share a relative path, which would make the lookup index ambiguous.
#[derive(Debug)]
pub enum GraphBuildError {
    DuplicatePath { path: String },
}

/// The index, if any, of the last `.` of a file name that is not its first
/// character: the dot that separates stem from extension.
pub open spec fn last_stem_dot(name: Seq<char>) -> Option<int>
    decreases name.len(),
{
    if name.len() <= 1 {
        None
    } else if name.last() == '.' {
        Some(name.len() - 1)
    } else {
        last_stem_dot(name.drop_last())
    }
}

/// A file name's stem: the portion before the final `.`, or the whole name
/// when there is no `.` beyond the first character.
pub open spec fn stem_of(name: Seq<char>) -> Seq<char> {
    match last_stem_dot(name) {
        Some(j) => name.take(j),
        None => name,
    }
}

/// A node's display label: the file name alone, except that an `index.*` file
/// with a parent directory is labelled `<parent-dir>/<file-name>` so that
/// same-named index files stay distinguishable.
pub open spec fn node_label(path: Seq<char>) -> Seq<char> {
    let segs = raw_split(path);
    let name = segs.last();
    if stem_of(name) == "index"@ && segs.len() >= 2 {
        segs[segs.len() - 2] + seq!['/'] + name
    } else {
        name
    }
}

/// A file name's stem, computed by scanning for the separating dot from the
/// right.
fn file_stem(name: &str) -> (r: String)
    ensures
        r@ == stem_of(name@),
{
    let len = name.unicode_len();
    let mut k: usize = len;
    proof {
        assert(name@.take(len as int) =~= name@);
    }
    while k > 1
        invariant
            k <= len,
            len == name@.len(),
            last_stem_dot(name@) == last_stem_dot(name@.take(k as int)),
        decreases k,
    {
        let c = name.get_char(k - 1);
        let ghost t = name@.take(k as int);
        proof {
            assert(t.len() == k && t.last() == name@[k - 1]);
            assert(t.drop_last() =~= name@.take(k - 1));
        }
        if c == '.' {
            proof {
                assert(last_stem_dot(t) == Some(k - 1));
            }
            let stem = name.substring_char(0, k - 1);
            proof {
                assert(name@.subrange(0, k - 1) =~= name@.take(k - 1));
            }
            return String::from_str(stem);
        }
        k = k - 1;
    }
    proof {
        assert(last_stem_dot(name@.take(k as int)) is None);
    }
    String::from_str(name)
}

/// The display label of the file at a normalized relative path.
pub fn get_node_label(path_relative: &str) -> (r: String)
    requires
        crate::paths::normalized_path(path_relative@),
    ensures
        r@ == node_label(path_relative@),
{
    let segs = split_slash(path_relative);
    let ghost raw = crate::paths::raw_split(path_relative@);
    let name = &segs[segs.len() - 1];
    proof {
        assert(segs.deep_view()[segs@.len() - 1] == name@);
        assert(name@ == raw.last());
    }
    let stem = file_stem(name.as_str());
    let is_index = stem == String::from_str("index");
    if is_index && segs.len() >= 2 {
        let parent = &segs[segs.len() - 2];
        proof {
            assert(segs.deep_view()[segs@.len() - 2] == parent@);
            assert(parent@ == raw[raw.len() - 2]);
            reveal_strlit("/");
            assert("/"@ =~= seq!['/']);
        }
        let mut label = parent.clone();
        label.append("/");
        label.append(name.as_str());
        label
    } else {
        name.clone()
    }
}

/// Whether a path runs through a directory that discovery excludes: a
/// dependency or build output directory.
pub open spec fn has_excluded_segment(path: Seq<char>) -> bool {
    exists|i: int|
        0 <= i < raw_split(path).len() && ((#[trigger] raw_split(path)[i]) == "node_modules"@
            || raw_split(path)[i] == "build"@ || raw_split(path)[i] == "dist"@)
}

/// Whether a discovered path lies under a dependency or build output
/// directory and must be left out of the graph.
pub fn contains_node_modules(path: &str) -> (r: bool)
    ensures
        r == has_excluded_segment(path@),
{
    let segs = split_slash(path);
    let ghost raw = crate::paths::raw_split(path@);
    let excluded1 = String::from_str("node_modules");
    let excluded2 = String::from_str("build");
    let excluded3 = String::from_str("dist");
    let mut i: usize = 0;
    while i < segs.len()
        invariant
            i <= segs@.len(),
            raw == segs.deep_view(),
            raw == raw_split(path@),
            excluded1@ == "node_modules"@,
            excluded2@ == "build"@,
            excluded3@ == "dist"@,
            forall|j: int|
                0 <= j < i ==> !((#[trigger] raw[j]) == "node_modules"@ || raw[j] == "build"@
                    || raw[j] == "dist"@),
        decreases segs@.len() - i,
    {
        let seg = &segs[i];
        if *seg == excluded1 || *seg == excluded2 || *seg == excluded3 {
            proof {
                assert(raw[i as int] == segs@[i as int]@);
                assert(seg@ == segs@[i as int]@);
                assert(raw_split(path@)[i as int] == "node_modules"@ || raw_split(
                    path@,
                )[i as int] == "build"@ || raw_split(path@)[i as int] == "dist"@);
                assert(has_excluded_segment(path@));
            }
            return true;
        }
        proof {
            assert(raw[i as int] == segs@[i as int]@);
        }
        i = i + 1;
    }
    false
}

/// Relies on `uuid::Uuid::new_v4` and its `Display` form: a fresh random
/// version-4 identifier, rendered as the 36-character hyphenated text.
#[verifier::external_body]
fn new_node_id() -> (r: String)
    ensures
        r@.len() == 36,
{
    uuid::Uuid::new_v4().to_string()
}

/// Whether every discovered file carries a normalized relative path.
pub open spec fn files_normalized(files: Seq<SourceFile>) -> bool {
    forall|i: int|
        0 <= i < files.len() ==> crate::paths::normalized_path(
            (#[trigger] files[i]).path_relative@,
        )
}

/// The relative paths of the discovered files, in discovery order.
pub open spec fn file_rel_paths(files: Seq<SourceFile>) -> Seq<Seq<char>> {
    files.map_values(|f: SourceFile| f.path_relative@)
}

/// The labels of a node sequence, in order.
pub open spec fn node_labels(nodes: Seq<Node>) -> Seq<Seq<char>> {
    nodes.map_values(|n: Node| n.label@)
}

/// No two paths in the list are equal.
pub open spec fn paths_unique(paths: Seq<Seq<char>>) -> bool {
    forall|i: int, j: int| 0 <= i < j < paths.len() ==> paths[i] != paths[j]
}

/// Position `j` holds the first relative path that repeats an earlier one.
pub open spec fn is_first_duplicate(paths: Seq<Seq<char>>, j: int) -> bool {
    0 <= j < paths.len() && find_path(paths.take(j), paths[j]) is Some && (forall|k: int|
        0 <= k < j ==> find_path(paths.take(k), paths[k]) is None)
}

/// Every import of every file, flattened in file order then source order:
/// pairs of the importing file's index and the raw specifier.
pub open spec fn flat_imports(files: Seq<SourceFile>) -> Seq<(int, Seq<char>)>
    decreases files.len(),
{
    if files.len() == 0 {
        Seq::empty()
    } else {
        flat_imports(files.drop_last()) + files.last().imports@.map_values(
            |u: UnresolvedImport| ((files.len() - 1) as int, u.module_name@),
        )
    }
}

/// The flattened imports of the first `i` files plus the first `j` imports of
/// file `i`.
pub open spec fn flat_imports_upto(files: Seq<SourceFile>, i: int, j: int) -> Seq<
    (int, Seq<char>),
> {
    flat_imports(files.take(i)) + files[i].imports@.take(j).map_values(
        |u: UnresolvedImport| (i, u.module_name@),
    )
}

/// Whether one flattened import classifies as external.
pub open spec fn entry_is_external(
    entry: (int, Seq<char>),
    files: Seq<SourceFile>,
    rules: Seq<ModuleResolutionItem>,
) -> bool {
    resolved_target(entry.1, files[entry.0].path_relative@, file_rel_paths(files), rules) is None
}

/// The distinct external names among the flattened imports, in
/// first-encountered order.
pub open spec fn external_names(
    entries: Seq<(int, Seq<char>)>,
    files: Seq<SourceFile>,
    rules: Seq<ModuleResolutionItem>,
) -> Seq<Seq<char>>
    decreases entries.len(),
{
    if entries.len() == 0 {
        Seq::empty()
    } else {
        let prev = external_names(entries.drop_last(), files, rules);
        let entry = entries.last();
        if entry_is_external(entry, files, rules) && !prev.contains(entry.1) {
            prev.push(entry.1)
        } else {
            prev
        }
    }
}

/// How one edge relates to its flattened import while the node collections
/// are still separate: its source is the importing file's node, and its
/// target the resolved file's node or the external node labelled with the
/// specifier.
pub open spec fn edge_partial(
    e: Edge,
    entry: (int, Seq<char>),
    internal: Seq<Node>,
    external: Seq<Node>,
    files: Seq<SourceFile>,
    rules: Seq<ModuleResolutionItem>,
) -> bool {
    &&& e.source_id@ == internal[entry.0].id@
    &&& match resolved_target(
        entry.1,
        files[entry.0].path_relative@,
        file_rel_paths(files),
        rules,
    ) {
        Some(hit) => e.target_id@ == internal[hit.1].id@,
        None => exists|x: int|
            0 <= x < external.len() && (#[trigger] external[x]).label@ == entry.1 && e.target_id@
                == external[x].id@,
    }
}

/// How one edge of the finished graph relates to its flattened import: its
/// source is the importing file's node, and its target the resolved file's
/// node or the external node whose position matches the name's
/// first-encountered rank.
pub open spec fn edge_matches(
    e: Edge,
    entry: (int, Seq<char>),
    nodes: Seq<Node>,
    n: int,
    files: Seq<SourceFile>,
    rules: Seq<ModuleResolutionItem>,
) -> bool {
    &&& e.source_id@ == nodes[entry.0].id@
    &&& match resolved_target(
        entry.1,
        files[entry.0].path_relative@,
        file_rel_paths(files),
        rules,
    ) {
        Some(hit) => e.target_id@ == nodes[hit.1].id@,
        None => exists|x: int|
            0 <= x < external_names(flat_imports(files), files, rules).len()
                && #[trigger] external_names(flat_imports(files), files, rules)[x] == entry.1
                && e.target_id@ == nodes[n + x].id@,
    }
}

/// The node list of the finished graph starts with one internal node per
/// discovered file, in discovery order, each carrying the file's paths and
/// its derived label.
pub open spec fn internal_nodes_ok(internal: Seq<Node>, files: Seq<SourceFile>) -> bool {
    &&& internal.len() == files.len()
    &&& forall|k: int|
        0 <= k < internal.len() ==> {
            &&& (#[trigger] internal[k]).node_type == NodeType::Internal
            &&& internal[k].path_relative@ == files[k].path_relative@
            &&& internal[k].path_absolute@ == files[k].path_absolute@
            &&& internal[k].label@ == node_label(files[k].path_relative@)
        }
}

/// Every external node is marked external and carries empty path fields.
pub open spec fn external_nodes_ok(external: Seq<Node>) -> bool {
    forall|x: int|
        0 <= x < external.len() ==> {
            &&& (#[trigger] external[x]).node_type == NodeType::External
            &&& external[x].path_absolute@ == Seq::<char>::empty()
            &&& external[x].path_relative@ == Seq::<char>::empty()
        }
}

/// Every flattened import names a real file index.
pub proof fn lemma_flat_imports_range(files: Seq<SourceFile>)
    ensures
        forall|k: int|
            0 <= k < flat_imports(files).len() ==> 0 <= (#[trigger] flat_imports(files)[k]).0
                < files.len(),
    decreases files.len(),
{
    if files.len() > 0 {
        lemma_flat_imports_range(files.drop_last());
        let front = flat_imports(files.drop_last());
        let tail = files.last().imports@.map_values(
            |u: UnresolvedImport| ((files.len() - 1) as int, u.module_name@),
        );
        assert forall|k: int|
            0 <= k < flat_imports(files).len() implies 0 <= (#[trigger] flat_imports(
            files,
        )[k]).0 < files.len() by {
            if k < front.len() {
                assert(flat_imports(files)[k] == front[k]);
            } else {
                assert(flat_imports(files)[k] == tail[k - front.len()]);
            }
        }
    }
}

/// Within one build the external names stay deduplicated: each name occurs at
/// most once, and a name occurs exactly when some flattened import classifies
/// as external under it.
pub proof fn lemma_external_names_distinct(
    entries: Seq<(int, Seq<char>)>,
    files: Seq<SourceFile>,
    rules: Seq<ModuleResolutionItem>,
)
    ensures
        forall|x: int, y: int|
            0 <= x < y < external_names(entries, files, rules).len() ==> external_names(
                entries,
                files,
                rules,
            )[x] != external_names(entries, files, rules)[y],
        forall|k: int|
            0 <= k < entries.len() && entry_is_external(#[trigger] entries[k], files, rules)
                ==> external_names(entries, files, rules).contains(entries[k].1),
        forall|x: int|
            0 <= x < external_names(entries, files, rules).len() ==> exists|k: int|
                0 <= k < entries.len() && (#[trigger] entries[k]).1 == #[trigger] external_names(
                    entries,
                    files,
                    rules,
                )[x] && entry_is_external(entries[k], files, rules),
    decreases entries.len(),
{
    if entries.len() > 0 {
        let prev_entries = entries.drop_last();
        lemma_external_names_distinct(prev_entries, files, rules);
        let prev = external_names(prev_entries, files, rules);
        let out = external_names(entries, files, rules);
        let entry = entries.last();
        assert forall|k: int|
            0 <= k < entries.len() && entry_is_external(
                #[trigger] entries[k],
                files,
                rules,
            ) implies out.contains(entries[k].1) by {
            if k < entries.len() - 1 {
                assert(entries[k] == prev_entries[k]);
                assert(prev.contains(entries[k].1));
                let w = choose|w: int| 0 <= w < prev.len() && prev[w] == entries[k].1;
                assert(out[w] == entries[k].1);
            } else {
                if prev.contains(entry.1) {
                    let w = choose|w: int| 0 <= w < prev.len() && prev[w] == entry.1;
                    assert(out[w] == entry.1);
                } else {
                    assert(out[out.len() - 1] == entry.1);
                }
            }
        }
        assert forall|x: int| 0 <= x < out.len() implies exists|k: int|
            0 <= k < entries.len() && (#[trigger] entries[k]).1 == #[trigger] out[x]
                && entry_is_external(entries[k], files, rules) by {
            if x < prev.len() {
                assert(out[x] == prev[x]);
                let k = choose|k: int|
                    0 <= k < prev_entries.len() && (#[trigger] prev_entries[k]).1 == prev[x]
                        && entry_is_external(prev_entries[k], files, rules);
                assert(entries[k] == prev_entries[k]);
                assert((entries[k]).1 == out[x] && entry_is_external(entries[k], files, rules));
            } else {
                assert(out[x] == entry.1 && entry_is_external(entry, files, rules));
                assert((entries[entries.len() - 1]).1 == out[x] && entry_is_external(
                    entries[entries.len() - 1],
                    files,
                    rules,
                ));
            }
        }
        assert forall|x: int, y: int| 0 <= x < y < out.len() implies out[x] != out[y] by {
            if y < prev.len() {
                assert(out[x] == prev[x] && out[y] == prev[y]);
            } else if y == prev.len() && out.len() == prev.len() + 1 {
                assert(out[x] == prev[x]);
                assert(!prev.contains(entry.1));
                assert(out[y] == entry.1);
                if prev[x] == entry.1 {
                    assert(prev.contains(entry.1));
                }
            }
        }
    }
}

/// The index of the node whose label equals `label`, if any.
fn find_label_index(nodes: &Vec<Node>, label: &String) -> (r: Option<usize>)
    ensures
        match r {
            Some(x) => x < nodes@.len() && find_path(node_labels(nodes@), label@) == Some(
                x as int,
            ),
            None => find_path(node_labels(nodes@), label@) is None,
        },
{
    let mut i: usize = 0;
    while i < nodes.len()
        invariant
            i <= nodes@.len(),
            forall|j: int| 0 <= j < i ==> node_labels(nodes@)[j] != label@,
        decreases nodes@.len() - i,
    {
        if nodes[i].label == *label {
            proof {
                crate::imports::lemma_find_path_props(node_labels(nodes@), label@);
                assert(node_labels(nodes@)[i as int] == label@);
            }
            return Some(i);
        }
        proof {
            assert(node_labels(nodes@)[i as int] == nodes@[i as int].label@);
        }
        i = i + 1;
    }
    proof {
        crate::imports::lemma_find_path_props(node_labels(nodes@), label@);
    }
    None
}

/// Builds the dependency graph for the discovered files: one internal node
/// per file in discovery order, one external node per distinct external name
/// in first-encountered order, and one edge per import in file order then
/// source order. Fails exactly when two discovered files share a relative
/// path, naming the first repeated path.
pub fn build_graph(
    title: String,
    files: Vec<SourceFile>,
    module_resolution: &Option<Vec<ModuleResolutionItem>>,
) -> (r: Result<Graph, GraphBuildError>)
    requires
        files_normalized(files@),
    ensures
        match r {
            Ok(g) => ({
                let n = files@.len() as int;
                let rules = crate::imports::rules_seq(*module_resolution);
                let entries = flat_imports(files@);
                let exts = external_names(entries, files@, rules);
                &&& paths_unique(file_rel_paths(files@))
                &&& g.title@ == title@
                &&& g.nodes@.len() == n + exts.len()
                &&& internal_nodes_ok(g.nodes@.take(n), files@)
                &&& external_nodes_ok(g.nodes@.skip(n))
                &&& node_labels(g.nodes@.skip(n)) == exts
                &&& g.edges@.len() == entries.len()
                &&& forall|k: int|
                    0 <= k < entries.len() ==> edge_matches(
                        #[trigger] g.edges@[k],
                        entries[k],
                        g.nodes@,
                        n,
                        files@,
                        rules,
                    )
            }),
            Err(e) => ({
                &&& !paths_unique(file_rel_paths(files@))
                &&& match e {
                    GraphBuildError::DuplicatePath { path } => exists|j: int|
                        #[trigger] is_first_duplicate(file_rel_paths(files@), j) && path@
                            == file_rel_paths(files@)[j],
                }
            }),
        },
{
    let ghost paths = file_rel_paths(files@);
    let ghost rules = crate::imports::rules_seq(*module_resolution);
    let mut internal_nodes: Vec<Node> = Vec::new();
    let mut i: usize = 0;
    proof {
        assert(node_paths(internal_nodes@) =~= paths.take(0));
    }
    while i < files.len()
        invariant
            i <= files@.len(),
            paths == file_rel_paths(files@),
            files_normalized(files@),
            internal_nodes@.len() == i,
            internal_nodes_ok(internal_nodes@, files@.take(i as int)),
            node_paths(internal_nodes@) == paths.take(i as int),
            forall|k: int| 0 <= k < i ==> find_path(paths.take(k), paths[k]) is None,
        decreases files@.len() - i,
    {
        let f = &files[i];
        proof {
            assert(paths[i as int] == files@[i as int].path_relative@);
        }
        match crate::imports::find_node_index(&internal_nodes, &f.path_relative) {
            Some(_) => {
                proof {
                    assert(find_path(paths.take(i as int), paths[i as int]) is Some);
                    assert(is_first_duplicate(paths, i as int));
                    crate::imports::lemma_find_path_props(paths.take(i as int), paths[i as int]);
                    match find_path(paths.take(i as int), paths[i as int]) {
                        Some(w) => {
                            assert(paths.take(i as int)[w] == paths[i as int]);
                            assert(paths[w] == paths[i as int]);
                            assert(!paths_unique(paths));
                        },
                        None => {},
                    }
                }
                return Err(GraphBuildError::DuplicatePath { path: f.path_relative.clone() });
            },
            None => {},
        }
        let label = get_node_label(f.path_relative.as_str());
        let node = Node {
            id: new_node_id(),
            node_type: NodeType::Internal,
            label,
            path_absolute: f.path_absolute.clone(),
            path_relative: f.path_relative.clone(),
        };
        let ghost prev_nodes = internal_nodes@;
        internal_nodes.push(node);
        i = i + 1;
        proof {
            assert(files@.take(i as int) =~= files@.take(i - 1).push(files@[i - 1]));
            assert(node_paths(internal_nodes@) =~= paths.take(i as int));
            assert(internal_nodes_ok(internal_nodes@, files@.take(i as int)));
        }
    }
    proof {
        assert(files@.take(files@.len() as int) =~= files@);
        assert(paths.take(files@.len() as int) =~= paths);
        assert forall|a: int, b: int|
            0 <= a < b < paths.len() implies paths[a] != paths[b] by {
            assert(find_path(paths.take(b), paths[b]) is None);
            crate::imports::lemma_find_path_props(paths.take(b), paths[b]);
            assert(paths.take(b)[a] == paths[a]);
        }
        assert(paths_unique(paths));
    }
    let mut external_nodes: Vec<Node> = Vec::new();
    let mut edges: Vec<Edge> = Vec::new();
    let mut fi: usize = 0;
    proof {
        assert(flat_imports(files@.take(0)) =~= Seq::<(int, Seq<char>)>::empty());
        assert(node_labels(external_nodes@) =~= external_names(
            flat_imports(files@.take(0)),
            files@,
            rules,
        ));
    }
    while fi < files.len()
        invariant
            fi <= files@.len(),
            paths == file_rel_paths(files@),
            rules == crate::imports::rules_seq(*module_resolution),
            paths_unique(paths),
            internal_nodes_ok(internal_nodes@, files@),
            node_paths(internal_nodes@) == paths,
            external_nodes_ok(external_nodes@),
            node_labels(external_nodes@) == external_names(
                flat_imports(files@.take(fi as int)),
                files@,
                rules,
            ),
            edges@.len() == flat_imports(files@.take(fi as int)).len(),
            forall|k: int|
                0 <= k < edges@.len() ==> edge_partial(
                    #[trigger] edges@[k],
                    flat_imports(files@.take(fi as int))[k],
                    internal_nodes@,
                    external_nodes@,
                    files@,
                    rules,
                ),
        decreases files@.len() - fi,
    {
        let ghost entries_before = flat_imports(files@.take(fi as int));
        let imports_len = files[fi].imports.len();
        let mut j: usize = 0;
        proof {
            assert(files@[fi as int].imports@.take(0).map_values(
                |u: UnresolvedImport| (fi as int, u.module_name@),
            ) =~= Seq::<(int, Seq<char>)>::empty());
            assert(flat_imports_upto(files@, fi as int, 0) =~= entries_before);
        }
        while j < imports_len
            invariant
                fi < files@.len(),
                j <= files@[fi as int].imports@.len(),
                imports_len == files@[fi as int].imports@.len(),
                paths == file_rel_paths(files@),
                rules == crate::imports::rules_seq(*module_resolution),
                internal_nodes_ok(internal_nodes@, files@),
                node_paths(internal_nodes@) == paths,
                external_nodes_ok(external_nodes@),
                node_labels(external_nodes@) == external_names(
                    flat_imports_upto(files@, fi as int, j as int),
                    files@,
                    rules,
                ),
                edges@.len() == flat_imports_upto(files@, fi as int, j as int).len(),
                forall|k: int|
                    0 <= k < edges@.len() ==> edge_partial(
                        #[trigger] edges@[k],
                        flat_imports_upto(files@, fi as int, j as int)[k],
                        internal_nodes@,
                        external_nodes@,
                        files@,
                        rules,
                    ),
            decreases imports_len - j,
        {
            let ghost entries_cur = flat_imports_upto(files@, fi as int, j as int);
            let ghost name = files@[fi as int].imports@[j as int].module_name@;
            let ghost entry = (fi as int, name);
            let ghost entries_next = flat_imports_upto(files@, fi as int, j + 1);
            let ghost exts_cur = external_names(entries_cur, files@, rules);
            proof {
                assert(files@[fi as int].imports@.take(j + 1) =~= files@[fi as int].imports@.take(
                    j as int,
                ).push(files@[fi as int].imports@[j as int]));
                assert(files@[fi as int].imports@.take(j + 1).map_values(
                    |u: UnresolvedImport| (fi as int, u.module_name@),
                ) =~= files@[fi as int].imports@.take(j as int).map_values(
                    |u: UnresolvedImport| (fi as int, u.module_name@),
                ).push(entry));
                assert(entries_next =~= entries_cur.push(entry));
                assert(entries_next.drop_last() =~= entries_cur);
                assert(entries_next.last() == entry);
            }
            let one = UnresolvedImport { module_name: files[fi].imports[j].module_name.clone() };
            let source_node = &internal_nodes[fi];
            let resolved = crate::imports::resolve_import(
                one,
                source_node,
                &internal_nodes,
                module_resolution,
            );
            proof {
                assert(internal_nodes@[fi as int].path_relative@ == files@[fi as int]
                    .path_relative@);
            }
            let ghost rt = resolved_target(name, files@[fi as int].path_relative@, paths, rules);
            match resolved {
                ResolvedImport::InternalImport { target_path: _, target_node_id } => {
                    proof {
                        assert(rt is Some);
                        assert(!entry_is_external(entry, files@, rules));
                        assert(external_names(entries_next, files@, rules) == exts_cur);
                    }
                    let edge = Edge {
                        id: new_node_id(),
                        source_id: internal_nodes[fi].id.clone(),
                        target_id: target_node_id,
                    };
                    let ghost edges_before = edges@;
                    edges.push(edge);
                    proof {
                        assert(edge_partial(
                            edges@[edges@.len() - 1],
                            entry,
                            internal_nodes@,
                            external_nodes@,
                            files@,
                            rules,
                        ));
                        assert forall|k: int|
                            0 <= k < edges@.len() implies edge_partial(
                            #[trigger] edges@[k],
                            entries_next[k],
                            internal_nodes@,
                            external_nodes@,
                            files@,
                            rules,
                        ) by {
                            if k < edges_before.len() {
                                assert(edges@[k] == edges_before[k]);
                                assert(entries_next[k] == entries_cur[k]);
                            }
                        }
                    }
                },
                ResolvedImport::ExternalImport { target_module_name } => {
                    proof {
                        assert(rt is None);
                        assert(target_module_name@ == name);
                        assert(entry_is_external(entry, files@, rules));
                    }
                    let ghost ext_entry = external_nodes@;
                    let target_id: String;
                    match find_label_index(&external_nodes, &target_module_name) {
                        Some(x) => {
                            proof {
                                crate::imports::lemma_find_path_props(
                                    node_labels(ext_entry),
                                    name,
                                );
                                assert(node_labels(ext_entry)[x as int] == name);
                                assert(exts_cur.contains(name));
                                assert(external_names(entries_next, files@, rules) == exts_cur);
                                assert(ext_entry[x as int].label@ == name);
                            }
                            target_id = external_nodes[x].id.clone();
                            proof {
                                assert(external_nodes@[x as int].label@ == name && target_id@
                                    == external_nodes@[x as int].id@);
                            }
                        },
                        None => {
                            proof {
                                crate::imports::lemma_find_path_props(
                                    node_labels(ext_entry),
                                    name,
                                );
                                assert(!exts_cur.contains(name)) by {
                                    if exts_cur.contains(name) {
                                        let w = choose|w: int|
                                            0 <= w < exts_cur.len() && exts_cur[w] == name;
                                        assert(node_labels(ext_entry)[w] == name);
                                    }
                                }
                                assert(external_names(entries_next, files@, rules)
                                    == exts_cur.push(name));
                            }
                            let ext_node = Node {
                                id: new_node_id(),
                                node_type: NodeType::External,
                                label: target_module_name.clone(),
                                path_absolute: String::new(),
                                path_relative: String::new(),
                            };
                            external_nodes.push(ext_node);
                            proof {
                                assert(node_labels(external_nodes@) =~= node_labels(
                                    ext_entry,
                                ).push(name));
                                assert(external_nodes_ok(external_nodes@));
                            }
                            let last = external_nodes.len() - 1;
                            target_id = external_nodes[last].id.clone();
                            proof {
                                assert(external_nodes@[last as int].label@ == name && target_id@
                                    == external_nodes@[last as int].id@);
                            }
                        },
                    }
                    proof {
                        assert(exists|x: int|
                            0 <= x < external_nodes@.len() && (#[trigger] external_nodes@[x])
                                .label@ == name && target_id@ == external_nodes@[x].id@);
                    }
                    let edge = Edge {
                        id: new_node_id(),
                        source_id: internal_nodes[fi].id.clone(),
                        target_id,
                    };
                    let ghost edges_before = edges@;
                    let ghost ext_now = external_nodes@;
                    edges.push(edge);
                    proof {
                        assert(edge_partial(
                            edges@[edges@.len() - 1],
                            entry,
                            internal_nodes@,
                            ext_now,
                            files@,
                            rules,
                        ));
                        assert forall|k: int|
                            0 <= k < edges@.len() implies edge_partial(
                            #[trigger] edges@[k],
                            entries_next[k],
                            internal_nodes@,
                            ext_now,
                            files@,
                            rules,
                        ) by {
                            if k < edges_before.len() {
                                assert(edges@[k] == edges_before[k]);
                                assert(entries_next[k] == entries_cur[k]);
                                assert(edge_partial(
                                    edges_before[k],
                                    entries_cur[k],
                                    internal_nodes@,
                                    ext_entry,
                                    files@,
                                    rules,
                                ));
                                match resolved_target(
                                    entries_cur[k].1,
                                    files@[entries_cur[k].0].path_relative@,
                                    file_rel_paths(files@),
                                    rules,
                                ) {
                                    Some(_) => {},
                                    None => {
                                        let w = choose|w: int|
                                            0 <= w < ext_entry.len() && (#[trigger] ext_entry[w])
                                                .label@ == entries_cur[k].1 && edges_before[k]
                                                .target_id@ == ext_entry[w].id@;
                                        assert(ext_now[w] == ext_entry[w]);
                                    },
                                }
                            }
                        }
                    }
                },
            }
            j = j + 1;
        }
        fi = fi + 1;
        proof {
            assert(files@.take(fi as int).drop_last() =~= files@.take(fi - 1));
            assert(files@.take(fi as int).last() == files@[fi - 1]);
            assert(files@[fi - 1].imports@.take(imports_len as int) =~= files@[fi - 1].imports@);
            assert(flat_imports(files@.take(fi as int)) =~= flat_imports_upto(
                files@,
                fi - 1,
                imports_len as int,
            ));
        }
    }
    let n = internal_nodes.len();
    let ghost internal_snap = internal_nodes@;
    let ghost external_snap = external_nodes@;
    let ghost entries = flat_imports(files@);
    proof {
        assert(files@.take(files@.len() as int) =~= files@);
        assert(entries == flat_imports(files@.take(files@.len() as int)));
    }
    let mut combined_nodes = internal_nodes;
    let mut pending_external = external_nodes;
    combined_nodes.append(&mut pending_external);
    let graph = Graph { title, nodes: combined_nodes, edges };
    proof {
        let nn = files@.len() as int;
        let exts = external_names(entries, files@, rules);
        assert(graph.nodes@ == internal_snap + external_snap);
        assert(graph.nodes@.take(nn) =~= internal_snap);
        assert(graph.nodes@.skip(nn) =~= external_snap);
        assert(node_labels(graph.nodes@.skip(nn)) == exts);
        lemma_flat_imports_range(files@);
        assert forall|k: int|
            0 <= k < entries.len() implies edge_matches(
            #[trigger] graph.edges@[k],
            entries[k],
            graph.nodes@,
            nn,
            files@,
            rules,
        ) by {
            let entry = entries[k];
            assert(edge_partial(
                graph.edges@[k],
                entry,
                internal_snap,
                external_snap,
                files@,
                rules,
            ));
            assert(0 <= entry.0 < nn);
            assert(graph.nodes@[entry.0] == internal_snap[entry.0]);
            crate::imports::lemma_resolved_target_bounds(
                entry.1,
                files@[entry.0].path_relative@,
                paths,
                rules,
            );
            match resolved_target(entry.1, files@[entry.0].path_relative@, paths, rules) {
                Some(hit) => {
                    assert(graph.nodes@[hit.1] == internal_snap[hit.1]);
                },
                None => {
                    let x = choose|x: int|
                        0 <= x < external_snap.len() && (#[trigger] external_snap[x]).label@
                            == entry.1 && graph.edges@[k].target_id@ == external_snap[x].id@;
                    assert(graph.nodes@[nn + x] == external_snap[x]);
                    assert(exts[x] == node_labels(external_snap)[x]);
                    assert(exts[x] == entry.1 && graph.edges@[k].target_id@ == graph.nodes@[nn
                        + x].id@);
                },
            }
        }
    }
    Ok(graph)
}

} // verus!
