//! Project files: where one is found, and what a check of a project reports.

use vstd::prelude::*;
use vstd::string::StringExecFns;

use crate::path::{has_substring, has_suffix, str_contains, str_ends_with};

verus! {

/// A path in a project file: one that must exist, or one that may be missing.
#[derive(Debug, Clone, PartialEq, Eq)]
pub enum ProjectPath {
    Required(String),
    Optional { optional: String },
}

impl ProjectPath {
    /// The path, whether it is required or not.
    pub open spec fn spec_path(&self) -> Seq<char> {
        match self {
            ProjectPath::Required(path) => path@,
            ProjectPath::Optional { optional } => optional@,
        }
    }

    /// The path, whether it is required or not.
    pub fn path(&self) -> (path: &str)
        ensures
            path@ == self.spec_path(),
    {
        match self {
            ProjectPath::Required(path) => path.as_str(),
            ProjectPath::Optional { optional } => optional.as_str(),
        }
    }
}

/// A node of the tree of instances that a project file describes. Its children have
/// names of their own: see [`ProjectNode::well_formed`].
#[derive(Debug)]
pub struct ProjectNode {
    /// The class of the instance.
    pub class_name: Option<String>,
    /// Where the instance comes from on the file system.
    pub path: Option<ProjectPath>,
    /// The children of the node, by name.
    pub tree: Vec<(String, ProjectNode)>,
    /// The tags of the instance.
    pub tags: Vec<String>,
    /// Whether instances that the project does not know are kept.
    pub keep_unknowns: Option<bool>,
}

/// The name of the directory into which Wally puts packages.
pub open spec fn packages_path() -> Seq<char> {
    "Packages"@
}

/// Whether `path` ends in the component in which the TypeScript compiler puts its modules.
pub open spec fn is_typescript_path(path: Seq<char>) -> bool {
    path == "@rbxts"@ || has_suffix(path, "/@rbxts"@)
}

/// The place of the first child called `name` at or after `from`, or the number of children
/// where there is none.
pub open spec fn first_named(tree: Seq<(String, ProjectNode)>, name: Seq<char>, from: int) -> int
    decreases tree.len() - from,
{
    if from < 0 || from >= tree.len() {
        tree.len() as int
    } else if tree[from].0@ == name {
        from
    } else {
        first_named(tree, name, from + 1)
    }
}

/// The node that is reached from `node` by going down the children called `names`, one
/// after the other.
pub open spec fn spec_find_node(node: ProjectNode, names: Seq<Seq<char>>) -> Option<ProjectNode>
    decreases names.len(),
{
    if names.len() == 0 {
        Some(node)
    } else {
        let place = first_named(node.tree@, names[0], 0);
        if place < node.tree@.len() {
            spec_find_node(node.tree@[place].1, names.drop_first())
        } else {
            None
        }
    }
}

/// Whether no two children have the same name.
pub open spec fn distinct_names(tree: Seq<(String, ProjectNode)>) -> bool {
    forall|i: int, j: int|
        0 <= i < j < tree.len() ==> (#[trigger] tree[i]).0@ != (#[trigger] tree[j]).0@
}

impl ProjectNode {
    /// Whether the node is well formed: its path, if it has one, is spelled in the one way
    /// that [`crate::path::is_plain_path`] allows, no two of its children have the same
    /// name, and its children are well formed.
    pub open spec fn well_formed(&self) -> bool
        decreases self,
    {
        &&& self.path matches Some(path) ==> crate::path::is_plain_path(path.spec_path())
        &&& distinct_names(self.tree@)
        &&& forall|i: int| 0 <= i < self.tree@.len() ==> (#[trigger] self.tree@[i]).1.well_formed()
    }

    /// Whether the node is well formed.
    pub fn is_well_formed(&self) -> (ok: bool)
        ensures
            ok == self.well_formed(),
        decreases self,
    {
        match &self.path {
            Some(path) => {
                if !crate::path::is_plain(path.path()) {
                    return false;
                }
            },
            None => {},
        }
        let mut i: usize = 0;
        while i < self.tree.len()
            invariant
                i <= self.tree.len(),
                self.path matches Some(path) ==> crate::path::is_plain_path(path.spec_path()),
                forall|a: int, b: int|
                    0 <= a < b < i ==> (#[trigger] self.tree@[a]).0@ != (#[trigger] self.tree@[b]).0@,
                forall|a: int| 0 <= a < i ==> (#[trigger] self.tree@[a]).1.well_formed(),
            decreases self.tree.len() - i,
        {
            if !self.tree[i].1.is_well_formed() {
                assert(!self.tree@[i as int].1.well_formed());
                return false;
            }
            let mut k: usize = 0;
            while k < i
                invariant
                    k <= i,
                    i < self.tree.len(),
                    forall|a: int| 0 <= a < k ==> (#[trigger] self.tree@[a]).0@ != self.tree@[i as int].0@,
                decreases i - k,
            {
                if crate::path::str_eq(self.tree[k].0.as_str(), self.tree[i].0.as_str()) {
                    assert(self.tree@[k as int].0@ == self.tree@[i as int].0@);
                    return false;
                }
                k += 1;
            }
            i += 1;
        }
        true
    }

    /// The child called `name`.
    pub fn child(&self, name: &str) -> (found: Option<&ProjectNode>)
        requires
            self.well_formed(),
        ensures
            found matches Some(node) ==> node.well_formed(),
            match found {
                Some(node) => first_named(self.tree@, name@, 0) < self.tree@.len() && *node
                    == self.tree@[first_named(self.tree@, name@, 0)].1,
                None => first_named(self.tree@, name@, 0) == self.tree@.len(),
            },
    {
        let mut i: usize = 0;
        while i < self.tree.len()
            invariant
                i <= self.tree.len(),
                self.well_formed(),
                first_named(self.tree@, name@, 0) == first_named(self.tree@, name@, i as int),
            decreases self.tree.len() - i,
        {
            if crate::path::str_eq(self.tree[i].0.as_str(), name) {
                return Some(&self.tree[i].1);
            }
            i += 1;
        }
        None
    }

    /// Whether the node or a node beneath it comes from the directory of packages.
    pub open spec fn spec_has_packages(&self) -> bool
        decreases self,
    {
        ||| self.path matches Some(path) && path.spec_path() == packages_path()
        ||| exists|i: int|
            0 <= i < self.tree@.len() && (#[trigger] self.tree@[i]).1.spec_has_packages()
    }

    /// Whether the node or a node beneath it comes from a directory of TypeScript modules.
    pub open spec fn spec_has_typescript(&self) -> bool
        decreases self,
    {
        ||| self.path matches Some(path) && is_typescript_path(path.spec_path())
        ||| exists|i: int|
            0 <= i < self.tree@.len() && (#[trigger] self.tree@[i]).1.spec_has_typescript()
    }

    /// Whether the node or a node beneath it comes from the directory of packages.
    pub fn has_packages(&self) -> (found: bool)
        requires
            self.well_formed(),
        ensures
            found == self.spec_has_packages(),
        decreases self,
    {
        match &self.path {
            Some(path) => {
                if crate::path::str_eq(path.path(), "Packages") {
                    return true;
                }
            },
            None => {},
        }
        let mut i: usize = 0;
        while i < self.tree.len()
            invariant
                i <= self.tree.len(),
                self.well_formed(),
                !(self.path matches Some(path) && path.spec_path() == packages_path()),
                forall|j: int| 0 <= j < i ==> !(#[trigger] self.tree@[j]).1.spec_has_packages(),
            decreases self.tree.len() - i,
        {
            if self.tree[i].1.has_packages() {
                return true;
            }
            i += 1;
        }
        false
    }

    /// Whether the node or a node beneath it comes from a directory of TypeScript modules.
    pub fn has_typescript(&self) -> (found: bool)
        requires
            self.well_formed(),
        ensures
            found == self.spec_has_typescript(),
        decreases self,
    {
        match &self.path {
            Some(path) => {
                if crate::path::str_eq(path.path(), "@rbxts") || str_ends_with(
                    path.path(),
                    "/@rbxts",
                ) {
                    return true;
                }
            },
            None => {},
        }
        let mut i: usize = 0;
        while i < self.tree.len()
            invariant
                i <= self.tree.len(),
                self.well_formed(),
                !(self.path matches Some(path) && is_typescript_path(path.spec_path())),
                forall|j: int| 0 <= j < i ==> !(#[trigger] self.tree@[j]).1.spec_has_typescript(),
            decreases self.tree.len() - i,
        {
            if self.tree[i].1.has_typescript() {
                return true;
            }
            i += 1;
        }
        false
    }
}

/// A project, as its file describes it.
#[derive(Debug)]
pub struct Project {
    /// The name of the project.
    pub name: String,
    /// The root of the tree of instances.
    pub node: ProjectNode,
    /// The address to serve on.
    pub host: Option<String>,
    /// The port to serve on.
    pub port: Option<u16>,
    /// The game the project belongs to.
    pub game_id: Option<u64>,
    /// The places the project may be served to.
    pub place_ids: Vec<u64>,
    /// Patterns of paths to leave out.
    pub ignore_globs: Vec<String>,
    /// What is left out when instances are written back.
    pub syncback: Option<SyncbackSettings>,
    /// Whether scripts are written in the old way.
    pub legacy_scripts: Option<bool>,
    /// The path of the project file.
    pub path: String,
    /// The directory of the project file.
    pub workspace_dir: String,
}

impl Project {
    /// Whether the project is a place: its root is a data model.
    pub open spec fn spec_is_place(&self) -> bool {
        self.node.class_name matches Some(class) && class@ == "DataModel"@
    }

    /// Whether the project is a place: its root is a data model.
    pub fn is_place(&self) -> (place: bool)
        ensures
            place == self.spec_is_place(),
    {
        match &self.node.class_name {
            Some(class) => crate::path::str_eq(class.as_str(), "DataModel"),
            None => false,
        }
    }

    /// The node that is reached from the root by going down the children called
    /// `node_path`, one after the other.
    pub fn find_node_by_path(&self, node_path: &Vec<String>) -> (found: Option<&ProjectNode>)
        requires
            self.node.well_formed(),
        ensures
            match found {
                Some(node) => spec_find_node(self.node, crate::event::paths_view(node_path@))
                    == Some(*node),
                None => spec_find_node(self.node, crate::event::paths_view(node_path@)) is None,
            },
    {
        let ghost names = crate::event::paths_view(node_path@);
        let mut node = &self.node;
        let mut i: usize = 0;
        assert(names.skip(0) =~= names);
        while i < node_path.len()
            invariant
                i <= node_path.len(),
                names == crate::event::paths_view(node_path@),
                node.well_formed(),
                spec_find_node(self.node, names) == spec_find_node(*node, names.skip(i as int)),
            decreases node_path.len() - i,
        {
            let ghost rest = names.skip(i as int);
            assert(rest[0] == node_path@[i as int]@);
            assert(rest.drop_first() =~= names.skip(i + 1));
            match node.child(node_path[i].as_str()) {
                Some(child) => {
                    node = child;
                },
                None => {
                    return None;
                },
            }
            i += 1;
        }
        Some(node)
    }

    /// Whether the project uses TypeScript: it leaves the files of the compiler out, or a
    /// node of it comes from a directory of TypeScript modules.
    pub fn is_ts(&self, ignores_compiler_files: bool) -> (typescript: bool)
        requires
            self.node.well_formed(),
        ensures
            typescript == (ignores_compiler_files || self.node.spec_has_typescript()),
    {
        ignores_compiler_files || self.node.has_typescript()
    }

    /// Whether the project uses Wally: a node of it comes from the directory of packages.
    pub fn is_wally(&self) -> (wally: bool)
        requires
            self.node.well_formed(),
        ensures
            wally == self.node.spec_has_packages(),
    {
        self.node.has_packages()
    }

    /// Checks the project: see [`validate`].
    pub fn validate(
        &self,
        has_plugin_meta: bool,
        has_config: bool,
        files: Option<&Vec<SourceFile>>,
    ) -> (report: ValidationReport)
        ensures
            texts_view(report.issues@) == spec_issues(self.name@, files_view(files)),
            texts_view(report.warnings@) == spec_warnings(has_plugin_meta, has_config),
            texts_view(report.suggestions@) == spec_suggestions(),
            report.success == (report.issues@.len() == 0),
    {
        validate(self.name.as_str(), has_plugin_meta, has_config, files)
    }
}

/// What a client is told of a project, with the references to the roots of its tree.
#[derive(Debug)]
pub struct ProjectDetails<R> {
    pub version: String,
    pub name: String,
    pub game_id: Option<u64>,
    pub place_ids: Vec<u64>,
    pub root_refs: Vec<R>,
}

impl<R> ProjectDetails<R> {
    /// The details of `project`: for a place the roots are those of the place, for any other
    /// project the one root of the tree.
    pub fn from_project(
        project: &Project,
        version: String,
        place_root_refs: Vec<R>,
        root_ref: R,
    ) -> (details: ProjectDetails<R>)
        ensures
            details.version == version,
            details.name@ == project.name@,
            details.game_id == project.game_id,
            details.place_ids@ == project.place_ids@,
            details.root_refs@ == if project.spec_is_place() {
                place_root_refs@
            } else {
                seq![root_ref]
            },
    {
        let mut place_ids: Vec<u64> = Vec::new();
        let mut i: usize = 0;
        while i < project.place_ids.len()
            invariant
                i <= project.place_ids.len(),
                place_ids@ == project.place_ids@.take(i as int),
            decreases project.place_ids.len() - i,
        {
            place_ids.push(project.place_ids[i]);
            assert(place_ids@ =~= project.place_ids@.take(i + 1));
            i += 1;
        }
        assert(project.place_ids@.take(project.place_ids.len() as int) =~= project.place_ids@);
        let root_refs = if project.is_place() {
            place_root_refs
        } else {
            let mut one: Vec<R> = Vec::new();
            one.push(root_ref);
            assert(one@ =~= seq![root_ref]);
            one
        };
        ProjectDetails {
            version,
            name: project.name.clone(),
            game_id: project.game_id,
            place_ids,
            root_refs,
        }
    }
}

/// What is left out when instances are written back to the file system.
#[derive(Debug, Clone, PartialEq, Eq)]
pub struct SyncbackSettings {
    /// Patterns of paths to leave out.
    pub ignore_globs: Vec<String>,
    /// Names of instances to leave out.
    pub ignore_names: Vec<String>,
    /// Classes to leave out.
    pub ignore_classes: Vec<String>,
    /// Properties to leave out.
    pub ignore_properties: Vec<String>,
}

/// The name of a project whose file gives none.
pub fn default_project_name() -> (name: String)
    ensures
        name@ == "default"@,
{
    String::from_str("default")
}

/// `path` with `.project.json` behind it: the project file beside a path without extension.
pub open spec fn spec_sibling_path(path: Seq<char>) -> Seq<char> {
    path + ".project.json"@
}

/// The file called `name` in the directory `path`.
pub open spec fn spec_child_path(path: Seq<char>, name: Seq<char>) -> Seq<char> {
    if path.len() > 0 && path.last() == crate::path::SEPARATOR {
        path + name
    } else {
        path + "/"@ + name
    }
}

/// The default project in the directory `path`.
pub open spec fn spec_default_project_path(path: Seq<char>) -> Seq<char> {
    spec_child_path(path, "default.project.json"@)
}

/// Whether `found` is a project file at or beneath `path`.
pub open spec fn is_project_file_in(found: Seq<char>, path: Seq<char>) -> bool {
    crate::path::is_at_or_beneath(found, path) && has_suffix(found, ".project.json"@)
}

/// The project file beside `path`.
pub fn sibling_path(path: &str) -> (sibling: String)
    ensures
        sibling@ == spec_sibling_path(path@),
{
    let mut sibling = String::from_str(path);
    sibling.append(".project.json");
    sibling
}

/// The default project in the directory `path`.
pub fn default_project_path(path: &str) -> (project: String)
    ensures
        project@ == spec_default_project_path(path@),
{
    let mut project = String::from_str(path);
    if !str_ends_with(path, "/") {
        proof {
            reveal_strlit("/");
            if path@.len() > 0 && path@.last() == crate::path::SEPARATOR {
                assert(path@.subrange(path@.len() - 1, path@.len() as int) =~= "/"@);
            }
        }
        project.append("/");
    } else {
        proof {
            reveal_strlit("/");
            assert(path@.subrange(path@.len() - 1, path@.len() as int)[0] == '/');
        }
    }
    project.append("default.project.json");
    project
}

/// What the file system says of a path where a project is looked for.
#[derive(Debug, Clone, PartialEq, Eq)]
pub struct ProjectSearch {
    /// The path that was asked for, made absolute and spelled in the one way.
    pub path: String,
    /// Whether `path` is a file.
    pub is_file: bool,
    /// Whether a path without extension may stand for the project file beside it.
    pub smart_paths: bool,
    /// Whether the project file beside `path` exists: see [`sibling_path`].
    pub sibling_exists: bool,
    /// Whether the default project in `path` exists: see [`default_project_path`].
    pub default_exists: bool,
    /// The first project file in the directory `path`.
    pub first_match: Option<String>,
}

impl ProjectSearch {
    /// Whether the search hangs together: the path is spelled in the one way, and the
    /// project file that was found, if one was, is spelled so too and is a project file at
    /// or beneath the path.
    pub open spec fn well_formed(&self) -> bool {
        &&& crate::path::is_plain_path(self.path@)
        &&& self.first_match matches Some(found) ==> crate::path::is_plain_path(found@)
            && is_project_file_in(found@, self.path@)
    }

    /// Whether the search hangs together.
    pub fn is_well_formed(&self) -> (ok: bool)
        ensures
            ok == self.well_formed(),
    {
        if !crate::path::is_plain(self.path.as_str()) {
            return false;
        }
        match &self.first_match {
            Some(found) => crate::path::is_plain(found.as_str()) && crate::path::path_starts_with(
                found.as_str(),
                self.path.as_str(),
            ) && str_ends_with(found.as_str(), ".project.json"),
            None => true,
        }
    }
}

/// The path of the project file to use: `path` itself where it is a file or is named like
/// a project file; else the project file beside it, where smart paths are on and it
/// exists; else the default project in it, where that exists; else the first project
/// file in it; else the default project, though it is missing.
pub open spec fn spec_resolve(search: ProjectSearch) -> Seq<char> {
    if search.is_file || has_suffix(search.path@, ".project.json"@) {
        search.path@
    } else if search.smart_paths && search.sibling_exists {
        spec_sibling_path(search.path@)
    } else if search.default_exists {
        spec_default_project_path(search.path@)
    } else {
        match search.first_match {
            Some(found) => found@,
            None => spec_default_project_path(search.path@),
        }
    }
}

/// The path of the project file to use for what was found at a path.
pub fn resolve(search: ProjectSearch) -> (project: String)
    requires
        search.well_formed(),
    ensures
        project@ == spec_resolve(search),
        project@ == search.path@ || project@ == spec_sibling_path(search.path@) || project@
            == spec_default_project_path(search.path@) || is_project_file_in(
            project@,
            search.path@,
        ),
{
    if search.is_file || str_ends_with(search.path.as_str(), ".project.json") {
        search.path
    } else if search.smart_paths && search.sibling_exists {
        sibling_path(search.path.as_str())
    } else if search.default_exists {
        default_project_path(search.path.as_str())
    } else {
        match search.first_match {
            Some(found) => found,
            None => default_project_path(search.path.as_str()),
        }
    }
}

/// A file of a project, with what it holds.
#[derive(Debug, Clone, PartialEq, Eq)]
pub struct SourceFile {
    /// The path of the file.
    pub path: String,
    /// The extension of the file, empty where it has none.
    pub extension: String,
    /// What the file holds.
    pub content: String,
}

/// The characters of each text of `texts`.
pub open spec fn texts_view(texts: Seq<String>) -> Seq<Seq<char>> {
    Seq::new(texts.len(), |i: int| texts[i]@)
}

/// Whether a file with this extension holds source code.
pub open spec fn spec_is_source_extension(extension: Seq<char>) -> bool {
    extension == "lua"@ || extension == "luau"@
}

/// Whether a file with this extension holds source code.
pub fn is_source_extension(extension: &str) -> (source: bool)
    ensures
        source == spec_is_source_extension(extension@),
{
    crate::path::str_eq(extension, "lua") || crate::path::str_eq(extension, "luau")
}

/// What a check of a project found.
#[derive(Debug, Clone, PartialEq, Eq)]
pub struct ValidationReport {
    /// Whether there is no issue.
    pub success: bool,
    /// What has to be mended.
    pub issues: Vec<String>,
    /// What should be looked at.
    pub warnings: Vec<String>,
    /// What could be better.
    pub suggestions: Vec<String>,
}

/// The issue for a banned name found in a file.
pub open spec fn banned_api_issue(api: Seq<char>, path: Seq<char>) -> Seq<char> {
    "Banned API '"@ + api + "' found in "@ + path
}

/// The issues for the banned names in one file: `loadstring` first, then `getfenv`.
pub open spec fn file_issues(file: SourceFile) -> Seq<Seq<char>> {
    let first: Seq<Seq<char>> = if has_substring(file.content@, "loadstring"@) {
        seq![banned_api_issue("loadstring"@, file.path@)]
    } else {
        Seq::empty()
    };
    if has_substring(file.content@, "getfenv"@) {
        first.push(banned_api_issue("getfenv"@, file.path@))
    } else {
        first
    }
}

/// The issues for the banned names in `files`, file by file.
pub open spec fn banned_api_issues(files: Seq<SourceFile>) -> Seq<Seq<char>>
    decreases files.len(),
{
    if files.len() == 0 {
        Seq::empty()
    } else {
        banned_api_issues(files.drop_last()) + file_issues(files.last())
    }
}

/// The issues of a project: an empty name; where the source files could be read, that there
/// are none, and the banned names in them.
pub open spec fn spec_issues(name: Seq<char>, files: Option<Seq<SourceFile>>) -> Seq<Seq<char>> {
    let first: Seq<Seq<char>> = if name.len() == 0 {
        seq!["Project name is empty"@]
    } else {
        Seq::empty()
    };
    match files {
        Some(found) => {
            let second = if found.len() == 0 {
                first.push("No source files found"@)
            } else {
                first
            };
            second + banned_api_issues(found)
        },
        None => first,
    }
}

/// The warnings of a project: a missing metadata file, then a missing configuration file.
pub open spec fn spec_warnings(has_plugin_meta: bool, has_config: bool) -> Seq<Seq<char>> {
    let first: Seq<Seq<char>> = if has_plugin_meta {
        Seq::empty()
    } else {
        seq!["Missing plugin.meta.json file"@]
    };
    if has_config {
        first
    } else {
        first.push("Missing fluxo.config.json file"@)
    }
}

/// The suggestions that every check makes.
pub open spec fn spec_suggestions() -> Seq<Seq<char>> {
    seq!["Consider adding documentation"@, "Use consistent naming conventions"@]
}

/// The files as a sequence, where there are any.
pub open spec fn files_view(files: Option<&Vec<SourceFile>>) -> Option<Seq<SourceFile>> {
    match files {
        Some(found) => Some(found@),
        None => None,
    }
}

/// Checks a project: its name, the two files beside it, and its source files, which are
/// missing where they could not be read.
pub fn validate(
    name: &str,
    has_plugin_meta: bool,
    has_config: bool,
    files: Option<&Vec<SourceFile>>,
) -> (report: ValidationReport)
    ensures
        texts_view(report.issues@) == spec_issues(name@, files_view(files)),
        texts_view(report.warnings@) == spec_warnings(has_plugin_meta, has_config),
        texts_view(report.suggestions@) == spec_suggestions(),
        report.success == (report.issues@.len() == 0),
{
    let mut issues: Vec<String> = Vec::new();
    let mut warnings: Vec<String> = Vec::new();
    let mut suggestions: Vec<String> = Vec::new();
    if name.is_empty() {
        issues.push(String::from_str("Project name is empty"));
    }
    if !has_plugin_meta {
        warnings.push(String::from_str("Missing plugin.meta.json file"));
    }
    if !has_config {
        warnings.push(String::from_str("Missing fluxo.config.json file"));
    }
    assert(texts_view(warnings@) =~= spec_warnings(has_plugin_meta, has_config));
    match files {
        Some(found) => {
            if found.len() == 0 {
                issues.push(String::from_str("No source files found"));
            }
            let ghost start = texts_view(issues@);
            let mut i: usize = 0;
            assert(found@.take(0) =~= Seq::empty());
            assert(start + banned_api_issues(found@.take(0)) =~= start);
            while i < found.len()
                invariant
                    i <= found.len(),
                    texts_view(issues@) == start + banned_api_issues(found@.take(i as int)),
                decreases found.len() - i,
            {
                let file = &found[i];
                let ghost before = texts_view(issues@);
                proof {
                    assert(found@.take(i + 1).drop_last() =~= found@.take(i as int));
                    assert(found@.take(i + 1).last() == found@[i as int]);
                }
                if str_contains(file.content.as_str(), "loadstring") {
                    let mut issue = String::from_str("Banned API '");
                    issue.append("loadstring");
                    issue.append("' found in ");
                    issue.append(file.path.as_str());
                    assert(issue@ =~= banned_api_issue("loadstring"@, file.path@));
                    issues.push(issue);
                }
                let ghost middle = texts_view(issues@);
                if str_contains(file.content.as_str(), "getfenv") {
                    let mut issue = String::from_str("Banned API '");
                    issue.append("getfenv");
                    issue.append("' found in ");
                    issue.append(file.path.as_str());
                    assert(issue@ =~= banned_api_issue("getfenv"@, file.path@));
                    issues.push(issue);
                }
                assert(texts_view(issues@) =~= before + file_issues(*file));
                i += 1;
            }
            assert(found@.take(found.len() as int) =~= found@);
            assert(texts_view(issues@) =~= spec_issues(name@, files_view(files)));
        },
        None => {
            assert(texts_view(issues@) =~= spec_issues(name@, files_view(files)));
        },
    }
    suggestions.push(String::from_str("Consider adding documentation"));
    suggestions.push(String::from_str("Use consistent naming conventions"));
    assert(texts_view(suggestions@) =~= spec_suggestions());
    let success = issues.len() == 0;
    ValidationReport { success, issues, warnings, suggestions }
}

} // verus!
