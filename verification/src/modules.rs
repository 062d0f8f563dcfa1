//! Modules: which files a program is made of, and who declares what.
use crate::ast::{decls_view, imports_view, Decl, ImportDecl, Program, ProgramView};
use crate::floats::{answers, float_model, FloatAnswer, FloatOp};
use crate::lexer::Span;
use crate::linking;
use crate::linking::{alias_target, aliases_view, exports, id_number, nodes_view, Node};
use crate::pipeline;
use crate::pipeline::{typed_outcome, FrontendError, FrontendErrorView};
use crate::resolution;
use crate::resolution::{
    file_at, findings, found_module, graph_of, imports_visited, lemma_visited, node_at, ordered,
    resolved, root_source, unread_root, visited,
};
use crate::semantic;
use crate::semantic::{declared_name, definition_kind, entry_point_problem, known_view};
use crate::text::{
    begins, clone_texts, contains_text, decimal, decimal_text, ends, join_texts, joined,
    text_begins, text_ends, texts,
};
use crate::typed::{
    definition_by_name, Definition, DefinitionKind, DefinitionView, DefId, ModuleId, TypedProgram,
    TypedProgramView,
};
use vstd::prelude::*;
verus! {
/// A declaration in the graph of modules.
#[derive(Debug, PartialEq)]
pub struct ModuleDefinition {
    pub id: DefId,
    pub module: ModuleId,
    /// The name as written where it is declared.
    pub source_name: String,
    /// The name that the linker sees. Nothing is looked up by it.
    pub linker_name: String,
    pub kind: DefinitionKind,
    pub exported: bool,
}

/// What a `ModuleDefinition` holds.
pub ghost struct ModuleDefinitionView {
    pub id: DefId,
    pub module: ModuleId,
    pub source_name: Seq<char>,
    pub linker_name: Seq<char>,
    pub kind: DefinitionKind,
    pub exported: bool,
}

impl ModuleDefinition {
    pub open spec fn view(&self) -> ModuleDefinitionView
        decreases self,
    {
        ModuleDefinitionView {
            id: self.id,
            module: self.module,
            source_name: self.source_name@,
            linker_name: self.linker_name@,
            kind: self.kind,
            exported: self.exported,
        }
    }
}

impl Clone for ModuleDefinition {
    fn clone(&self) -> (r: Self)
        ensures
            r@ == self@,
        decreases self,
    {
        ModuleDefinition {
            id: self.id,
            module: self.module,
            source_name: self.source_name.clone(),
            linker_name: self.linker_name.clone(),
            kind: self.kind,
            exported: self.exported,
        }
    }
}

/// An import in the graph of modules.
#[derive(Debug, PartialEq)]
pub struct ModuleImport {
    pub alias: String,
    pub target: ModuleId,
    pub span: Span,
}

/// What a `ModuleImport` holds.
pub ghost struct ModuleImportView {
    pub alias: Seq<char>,
    pub target: ModuleId,
    pub span: Span,
}

impl ModuleImport {
    pub open spec fn view(&self) -> ModuleImportView
        decreases self,
    {
        ModuleImportView {
            alias: self.alias@,
            target: self.target,
            span: self.span,
        }
    }
}

impl Clone for ModuleImport {
    fn clone(&self) -> (r: Self)
        ensures
            r@ == self@,
        decreases self,
    {
        ModuleImport {
            alias: self.alias.clone(),
            target: self.target,
            span: self.span,
        }
    }
}

/// A module in the graph of modules.
#[derive(Debug, PartialEq)]
pub struct ModuleInfo {
    pub id: ModuleId,
    pub path: String,
    pub imports: Vec<ModuleImport>,
    pub declarations: Vec<DefId>,
}

/// What a `ModuleInfo` holds.
pub ghost struct ModuleInfoView {
    pub id: ModuleId,
    pub path: Seq<char>,
    pub imports: Seq<ModuleImportView>,
    pub declarations: Seq<DefId>,
}

impl ModuleInfo {
    pub open spec fn view(&self) -> ModuleInfoView
        decreases self,
    {
        ModuleInfoView {
            id: self.id,
            path: self.path@,
            imports: module_imports_view(self.imports@),
            declarations: self.declarations@,
        }
    }
}

impl Clone for ModuleInfo {
    fn clone(&self) -> (r: Self)
        ensures
            r@ == self@,
        decreases self,
    {
        ModuleInfo {
            id: self.id,
            path: self.path.clone(),
            imports: module_imports_clone(&self.imports),
            declarations: clone_ids(&self.declarations),
        }
    }
}

/// The modules of a project, by identity.
#[derive(Debug, PartialEq)]
pub struct ModuleGraph {
    pub root: ModuleId,
    pub modules: Vec<ModuleInfo>,
    pub definitions: Vec<ModuleDefinition>,
}

/// What a `ModuleGraph` holds.
pub ghost struct ModuleGraphView {
    pub root: ModuleId,
    pub modules: Seq<ModuleInfoView>,
    pub definitions: Seq<ModuleDefinitionView>,
}

impl ModuleGraph {
    pub open spec fn view(&self) -> ModuleGraphView
        decreases self,
    {
        ModuleGraphView {
            root: self.root,
            modules: module_infos_view(self.modules@),
            definitions: module_definitions_view(self.definitions@),
        }
    }
}

impl Clone for ModuleGraph {
    fn clone(&self) -> (r: Self)
        ensures
            r@ == self@,
        decreases self,
    {
        ModuleGraph {
            root: self.root,
            modules: module_infos_clone(&self.modules),
            definitions: module_definitions_clone(&self.definitions),
        }
    }
}

/// A root file and the modules it leads to.
#[derive(Debug, PartialEq)]
pub struct Project {
    /// The declarations of all modules, under the names that the linker sees.
    pub program: Program,
    pub graph: ModuleGraph,
    pub root_source: String,
    pub root_path: String,
    /// The files, each after those that it imports.
    pub dependencies: Vec<String>,
}

/// What a `Project` holds.
pub ghost struct ProjectView {
    pub program: ProgramView,
    pub graph: ModuleGraphView,
    pub root_source: Seq<char>,
    pub root_path: Seq<char>,
    pub dependencies: Seq<Seq<char>>,
}

impl Project {
    pub open spec fn view(&self) -> ProjectView
        decreases self,
    {
        ProjectView {
            program: self.program.view(),
            graph: self.graph.view(),
            root_source: self.root_source@,
            root_path: self.root_path@,
            dependencies: texts(self.dependencies@),
        }
    }
}

impl Clone for Project {
    fn clone(&self) -> (r: Self)
        ensures
            r@ == self@,
        decreases self,
    {
        Project {
            program: self.program.clone(),
            graph: self.graph.clone(),
            root_source: self.root_source.clone(),
            root_path: self.root_path.clone(),
            dependencies: clone_texts(&self.dependencies),
        }
    }
}

/// Why files make no project.
#[derive(Debug, PartialEq)]
pub struct ProjectError {
    pub message: String,
    pub span: Span,
}

/// What a `ProjectError` holds.
pub ghost struct ProjectErrorView {
    pub message: Seq<char>,
    pub span: Span,
}

impl ProjectError {
    pub open spec fn view(&self) -> ProjectErrorView
        decreases self,
    {
        ProjectErrorView {
            message: self.message@,
            span: self.span,
        }
    }
}

impl Clone for ProjectError {
    fn clone(&self) -> (r: Self)
        ensures
            r@ == self@,
        decreases self,
    {
        ProjectError {
            message: self.message.clone(),
            span: self.span,
        }
    }
}

/// What reading a file gave.
#[allow(inconsistent_fields)]
#[derive(Debug, PartialEq)]
pub enum Contents {
    Text(String),
    /// Why it could not be read.
    Unreadable(String),
}

/// What a `Contents` holds.
#[allow(inconsistent_fields)]
pub ghost enum ContentsView {
    Text(Seq<char>),
    Unreadable(Seq<char>),
}

impl Contents {
    pub open spec fn view(&self) -> ContentsView
        decreases self,
    {
        match self {
            Contents::Text(inner) => ContentsView::Text(inner@),
            Contents::Unreadable(inner) => ContentsView::Unreadable(inner@),
        }
    }
}

impl Clone for Contents {
    fn clone(&self) -> (r: Self)
        ensures
            r@ == self@,
        decreases self,
    {
        match self {
            Contents::Text(inner) => Contents::Text(inner.clone()),
            Contents::Unreadable(inner) => Contents::Unreadable(inner.clone()),
        }
    }
}

/// A file, and the files that each of its imports was found to mean.
#[derive(Debug, PartialEq)]
pub struct SourceFile {
    pub path: String,
    pub contents: Contents,
    pub found: Vec<Vec<String>>,
}

/// What a `SourceFile` holds.
pub ghost struct SourceFileView {
    pub path: Seq<char>,
    pub contents: ContentsView,
    pub found: Seq<Seq<Seq<char>>>,
}

impl SourceFile {
    pub open spec fn view(&self) -> SourceFileView
        decreases self,
    {
        SourceFileView {
            path: self.path@,
            contents: self.contents.view(),
            found: text_lists(self.found@),
        }
    }
}

impl Clone for SourceFile {
    fn clone(&self) -> (r: Self)
        ensures
            r@ == self@,
        decreases self,
    {
        SourceFile {
            path: self.path.clone(),
            contents: self.contents.clone(),
            found: clone_text_lists(&self.found),
        }
    }
}

/// What a list of `ModuleDefinition` holds.
pub open spec fn module_definitions_view(s: Seq<ModuleDefinition>) -> Seq<ModuleDefinitionView>
    decreases s,
{
    Seq::new(
        s.len(),
        |i: int|
            if 0 <= i < s.len() {
                s[i].view()
            } else {
                arbitrary()
            },
    )
}

pub broadcast proof fn lemma_module_definitions_push(s: Seq<ModuleDefinition>, x: ModuleDefinition)
    ensures
        #[trigger] module_definitions_view(s.push(x)) == module_definitions_view(s).push(x@),
{
    assert(module_definitions_view(s.push(x)) =~= module_definitions_view(s).push(x@));
}

pub fn module_definitions_clone(v: &Vec<ModuleDefinition>) -> (r: Vec<ModuleDefinition>)
    ensures
        module_definitions_view(r@) == module_definitions_view(v@),
    decreases v,
{
    let mut out: Vec<ModuleDefinition> = Vec::new();
    for i in 0..v.len()
        invariant
            out.len() == i,
            forall|j: int| 0 <= j < i ==> (#[trigger] out@[j])@ == v@[j]@,
    {
        out.push(v[i].clone());
    }
    assert(module_definitions_view(out@) =~= module_definitions_view(v@));
    out
}

/// What a list of `ModuleImport` holds.
pub open spec fn module_imports_view(s: Seq<ModuleImport>) -> Seq<ModuleImportView>
    decreases s,
{
    Seq::new(
        s.len(),
        |i: int|
            if 0 <= i < s.len() {
                s[i].view()
            } else {
                arbitrary()
            },
    )
}

pub broadcast proof fn lemma_module_imports_push(s: Seq<ModuleImport>, x: ModuleImport)
    ensures
        #[trigger] module_imports_view(s.push(x)) == module_imports_view(s).push(x@),
{
    assert(module_imports_view(s.push(x)) =~= module_imports_view(s).push(x@));
}

pub fn module_imports_clone(v: &Vec<ModuleImport>) -> (r: Vec<ModuleImport>)
    ensures
        module_imports_view(r@) == module_imports_view(v@),
    decreases v,
{
    let mut out: Vec<ModuleImport> = Vec::new();
    for i in 0..v.len()
        invariant
            out.len() == i,
            forall|j: int| 0 <= j < i ==> (#[trigger] out@[j])@ == v@[j]@,
    {
        out.push(v[i].clone());
    }
    assert(module_imports_view(out@) =~= module_imports_view(v@));
    out
}

/// What a list of `ModuleInfo` holds.
pub open spec fn module_infos_view(s: Seq<ModuleInfo>) -> Seq<ModuleInfoView>
    decreases s,
{
    Seq::new(
        s.len(),
        |i: int|
            if 0 <= i < s.len() {
                s[i].view()
            } else {
                arbitrary()
            },
    )
}

pub fn module_infos_clone(v: &Vec<ModuleInfo>) -> (r: Vec<ModuleInfo>)
    ensures
        module_infos_view(r@) == module_infos_view(v@),
    decreases v,
{
    let mut out: Vec<ModuleInfo> = Vec::new();
    for i in 0..v.len()
        invariant
            out.len() == i,
            forall|j: int| 0 <= j < i ==> (#[trigger] out@[j])@ == v@[j]@,
    {
        out.push(v[i].clone());
    }
    assert(module_infos_view(out@) =~= module_infos_view(v@));
    out
}

/// What a list of `SourceFile` holds.
pub open spec fn files_view(s: Seq<SourceFile>) -> Seq<SourceFileView>
    decreases s,
{
    Seq::new(
        s.len(),
        |i: int|
            if 0 <= i < s.len() {
                s[i].view()
            } else {
                arbitrary()
            },
    )
}

/// What a list of lists of texts reads.
pub open spec fn text_lists(s: Seq<Vec<String>>) -> Seq<Seq<Seq<char>>> {
    Seq::new(s.len(), |i: int| texts(s[i]@))
}

pub fn clone_text_lists(v: &Vec<Vec<String>>) -> (r: Vec<Vec<String>>)
    ensures
        text_lists(r@) == text_lists(v@),
{
    let mut out: Vec<Vec<String>> = Vec::new();
    for i in 0..v.len()
        invariant
            out.len() == i,
            forall|j: int| 0 <= j < i ==> texts((#[trigger] out@[j])@) == texts(v@[j]@),
    {
        out.push(clone_texts(&v[i]));
    }
    assert(text_lists(out@) =~= text_lists(v@));
    out
}

fn clone_ids(v: &Vec<DefId>) -> (r: Vec<DefId>)
    ensures
        r@ == v@,
{
    let mut out: Vec<DefId> = Vec::new();
    for i in 0..v.len()
        invariant
            out@ == v@.take(i as int),
    {
        assert(v@.take(i + 1) =~= v@.take(i as int).push(v@[i as int]));
        out.push(v[i]);
    }
    assert(v@.take(v@.len() as int) =~= v@);
    out
}

// ---------------------------------------------------------------------------
// Looking things up in the graph
// ---------------------------------------------------------------------------

/// The module of an identity.
pub open spec fn graph_module(graph: ModuleGraphView, id: ModuleId) -> Option<ModuleInfoView> {
    if id.0 < graph.modules.len() && graph.modules[id.0 as int].id == id {
        Some(graph.modules[id.0 as int])
    } else {
        None
    }
}

/// The first definition of an identity, from `i` on.
pub open spec fn graph_definition(
    definitions: Seq<ModuleDefinitionView>,
    i: int,
    id: DefId,
) -> Option<ModuleDefinitionView>
    decreases definitions.len() - i,
{
    if i < 0 || i >= definitions.len() {
        None
    } else if definitions[i].id == id {
        Some(definitions[i])
    } else {
        graph_definition(definitions, i + 1, id)
    }
}

/// The first definition of a name among the identities from `i` on.
pub open spec fn named_definition(
    definitions: Seq<ModuleDefinitionView>,
    ids: Seq<DefId>,
    i: int,
    name: Seq<char>,
) -> Option<ModuleDefinitionView>
    decreases ids.len() - i,
{
    if i < 0 || i >= ids.len() {
        None
    } else {
        match graph_definition(definitions, 0, ids[i]) {
            Some(found) if found.source_name == name => Some(found),
            _ => named_definition(definitions, ids, i + 1, name),
        }
    }
}

/// What a module declares under a name.
pub open spec fn looked_up(graph: ModuleGraphView, module: ModuleId, name: Seq<char>) -> Option<
    ModuleDefinitionView,
> {
    match graph_module(graph, module) {
        Some(info) => named_definition(graph.definitions, info.declarations, 0, name),
        None => None,
    }
}

/// Where the first import of an alias leads, from `i` on.
pub open spec fn import_target(imports: Seq<ModuleImportView>, i: int, alias: Seq<char>) -> Option<
    ModuleId,
>
    decreases imports.len() - i,
{
    if i < 0 || i >= imports.len() {
        None
    } else if imports[i].alias == alias {
        Some(imports[i].target)
    } else {
        import_target(imports, i + 1, alias)
    }
}

/// Where an alias leads in a module.
pub open spec fn imported(graph: ModuleGraphView, module: ModuleId, alias: Seq<char>) -> Option<
    ModuleId,
> {
    match graph_module(graph, module) {
        Some(info) => import_target(info.imports, 0, alias),
        None => None,
    }
}

/// What a qualified name means in a module.
pub open spec fn looked_up_qualified(
    graph: ModuleGraphView,
    module: ModuleId,
    alias: Seq<char>,
    name: Seq<char>,
) -> Option<ModuleDefinitionView> {
    match imported(graph, module, alias) {
        Some(target) => looked_up(graph, target, name),
        None => None,
    }
}

pub open spec fn found_id(found: Option<ModuleDefinitionView>) -> Option<DefId> {
    match found {
        Some(definition) => Some(definition.id),
        None => None,
    }
}

pub open spec fn found_definition(found: Option<&ModuleDefinition>) -> Option<
    ModuleDefinitionView,
> {
    match found {
        Some(definition) => Some(definition@),
        None => None,
    }
}

/// The first definition from `i` on that was made from a generic declaration
/// or renamed for the linker.
pub open spec fn derived_definition(
    definitions: Seq<DefinitionView>,
    i: int,
    name: Seq<char>,
) -> Option<DefinitionView>
    decreases definitions.len() - i,
{
    if i < 0 || i >= definitions.len() {
        None
    } else if begins(definitions[i].name, name + "__"@) || ends(
        definitions[i].name,
        "_"@ + name,
    ) {
        Some(definitions[i])
    } else {
        derived_definition(definitions, i + 1, name)
    }
}

/// The typed definition that stands for a definition of the graph.
pub open spec fn typed_counterpart(
    definitions: Seq<DefinitionView>,
    wanted: ModuleDefinitionView,
) -> Option<DefinitionView> {
    match definition_by_name(definitions, 0, wanted.linker_name) {
        Some(found) => Some(found),
        None => match definition_by_name(definitions, 0, wanted.source_name) {
            Some(found) => Some(found),
            None => derived_definition(definitions, 0, wanted.source_name),
        },
    }
}

/// What the definitions of the graph from `i` on lack in a typed program.
pub open spec fn lost_definition(
    graph: Seq<ModuleDefinitionView>,
    i: int,
    definitions: Seq<DefinitionView>,
) -> Option<Seq<char>>
    decreases graph.len() - i,
{
    if i < 0 || i >= graph.len() {
        None
    } else {
        match typed_counterpart(definitions, graph[i]) {
            None => Some(
                "typed frontend lost declaration "@ + graph[i].id.text() + " (`"@
                    + graph[i].source_name + "` / `"@ + graph[i].linker_name + "`)"@,
            ),
            Some(found) => if found.kind != graph[i].kind {
                Some("typed declaration "@ + graph[i].id.text() + " has the wrong kind"@)
            } else {
                lost_definition(graph, i + 1, definitions)
            },
        }
    }
}

/// Why a typed program is not one of the graph, if it is not.
pub open spec fn typed_mismatch(graph: ModuleGraphView, typed: TypedProgramView) -> Option<
    Seq<char>,
> {
    let wanted = graph.definitions;
    let given = typed.symbols.definitions;
    if given.len() < wanted.len() {
        Some(
            "resolved graph contains "@ + decimal(wanted.len())
                + " declarations but typed frontend produced "@ + decimal(given.len()),
        )
    } else {
        lost_definition(wanted, 0, given)
    }
}

fn find_derived<'a>(definitions: &'a Vec<Definition>, name: &String) -> (r: Option<&'a Definition>)
    ensures
        match r {
            Some(found) => derived_definition(
                crate::typed::definitions_view(definitions@),
                0,
                name@,
            ) == Some(found@),
            None => derived_definition(
                crate::typed::definitions_view(definitions@),
                0,
                name@,
            ) is None,
        },
{
    let ghost all = crate::typed::definitions_view(definitions@);
    let start: String = joined(name.clone(), "__");
    let end: String = joined("_".to_owned(), name.as_str());
    for i in 0..definitions.len()
        invariant
            all == crate::typed::definitions_view(definitions@),
            start@ == name@ + "__"@,
            end@ == "_"@ + name@,
            derived_definition(all, 0, name@) == derived_definition(all, i as int, name@),
    {
        assert(all[i as int] == definitions@[i as int]@);
        if text_begins(&definitions[i].name, &start) || text_ends(&definitions[i].name, &end) {
            return Some(&definitions[i]);
        }
    }
    None
}

impl ModuleGraph {
    /// Whether a typed program has every declaration of the graph, each of
    /// its kind.
    pub fn validate_typed(&self, typed: &TypedProgram) -> (r: Result<(), String>)
        ensures
            match r {
                Ok(()) => typed_mismatch(self@, typed@) is None,
                Err(message) => typed_mismatch(self@, typed@) == Some(message@),
            },
    {
        let ghost wanted = self@.definitions;
        let ghost given = typed@.symbols.definitions;
        if typed.symbols.definitions.len() < self.definitions.len() {
            let left: String = decimal_text(self.definitions.len() as u128);
            let right: String = decimal_text(typed.symbols.definitions.len() as u128);
            return Err(
                joined(
                    joined(
                        joined("resolved graph contains ".to_owned(), left.as_str()),
                        " declarations but typed frontend produced ",
                    ),
                    right.as_str(),
                ),
            );
        }
        for i in 0..self.definitions.len()
            invariant
                wanted == module_definitions_view(self.definitions@),
                given == typed@.symbols.definitions,
                typed_mismatch(self@, typed@) == lost_definition(wanted, i as int, given),
        {
            let definition: &ModuleDefinition = &self.definitions[i];
            assert(wanted[i as int] == definition@);
            let found: Option<&Definition> = match typed.symbols.find(
                definition.linker_name.as_str(),
            ) {
                Some(found) => Some(found),
                None => match typed.symbols.find(definition.source_name.as_str()) {
                    Some(found) => Some(found),
                    None => find_derived(&typed.symbols.definitions, &definition.source_name),
                },
            };
            let id: String = definition.id.to_string();
            match found {
                None => {
                    let start: String = joined(
                        joined("typed frontend lost declaration ".to_owned(), id.as_str()),
                        " (`",
                    );
                    let middle: String = joined(
                        joined(start, definition.source_name.as_str()),
                        "` / `",
                    );
                    return Err(joined(joined(middle, definition.linker_name.as_str()), "`)"));
                },
                Some(symbol) => {
                    if symbol.kind != definition.kind {
                        return Err(
                            joined(
                                joined("typed declaration ".to_owned(), id.as_str()),
                                " has the wrong kind",
                            ),
                        );
                    }
                },
            }
        }
        Ok(())
    }

    pub fn module(&self, id: ModuleId) -> (r: Option<&ModuleInfo>)
        ensures
            match r {
                Some(info) => graph_module(self@, id) == Some(info@),
                None => graph_module(self@, id) is None,
            },
    {
        let i: usize = id.index();
        if i < self.modules.len() && self.modules[i].id == id {
            assert(self@.modules[i as int] == self.modules@[i as int]@);
            Some(&self.modules[i])
        } else {
            assert(i < self.modules.len() ==> self@.modules[i as int] == self.modules@[i as int]@);
            None
        }
    }

    pub fn definition(&self, id: DefId) -> (r: Option<&ModuleDefinition>)
        ensures
            found_definition(r) == graph_definition(self@.definitions, 0, id),
    {
        let ghost all = self@.definitions;
        for i in 0..self.definitions.len()
            invariant
                all == module_definitions_view(self.definitions@),
                graph_definition(all, 0, id) == graph_definition(all, i as int, id),
        {
            assert(all[i as int] == self.definitions@[i as int]@);
            if self.definitions[i].id == id {
                return Some(&self.definitions[i]);
            }
        }
        None
    }

    /// What a module declares under a name.
    pub fn lookup(&self, module: ModuleId, name: &str) -> (r: Option<&ModuleDefinition>)
        ensures
            found_definition(r) == looked_up(self@, module, name@),
    {
        let wanted: String = name.to_owned();
        let info: &ModuleInfo = self.module(module)?;
        let ghost ids = info.declarations@;
        for i in 0..info.declarations.len()
            invariant
                wanted@ == name@,
                ids == info.declarations@,
                graph_module(self@, module) == Some(info@),
                looked_up(self@, module, name@) == named_definition(
                    self@.definitions,
                    ids,
                    i as int,
                    name@,
                ),
        {
            match self.definition(info.declarations[i]) {
                Some(found) => {
                    if found.source_name == wanted {
                        return Some(found);
                    }
                },
                None => {},
            }
        }
        None
    }

    /// Where an alias leads in a module.
    pub fn import(&self, module: ModuleId, alias: &str) -> (r: Option<ModuleId>)
        ensures
            r == imported(self@, module, alias@),
    {
        let wanted: String = alias.to_owned();
        let info: &ModuleInfo = self.module(module)?;
        let ghost all = module_imports_view(info.imports@);
        for i in 0..info.imports.len()
            invariant
                wanted@ == alias@,
                all == module_imports_view(info.imports@),
                imported(self@, module, alias@) == import_target(all, i as int, alias@),
        {
            assert(all[i as int] == info.imports@[i as int]@);
            if info.imports[i].alias == wanted {
                return Some(info.imports[i].target);
            }
        }
        None
    }

    pub fn lookup_qualified(&self, module: ModuleId, alias: &str, name: &str) -> (r: Option<
        &ModuleDefinition,
    >)
        ensures
            found_definition(r) == looked_up_qualified(self@, module, alias@, name@),
    {
        let target: ModuleId = self.import(module, alias)?;
        self.lookup(target, name)
    }

    /// The identity of what a qualified name means in a module.
    pub fn resolve_qualified(&self, module: ModuleId, alias: &str, name: &str) -> (r: Option<DefId>)
        ensures
            r == found_id(looked_up_qualified(self@, module, alias@, name@)),
    {
        match self.lookup_qualified(module, alias, name) {
            Some(definition) => Some(definition.id),
            None => None,
        }
    }

    pub fn resolve_local(&self, module: ModuleId, name: &str) -> (r: Option<DefId>)
        ensures
            r == found_id(looked_up(self@, module, name@)),
    {
        match self.lookup(module, name) {
            Some(definition) => Some(definition.id),
            None => None,
        }
    }

    /// The identities that the names of the program have.
    pub fn known_ids(&self) -> (r: Vec<(String, DefId)>)
        ensures
            known_view(r@) == graph_ids(self@.definitions, self@.definitions.len() as int),
    {
        let ghost all = self@.definitions;
        let mut out: Vec<(String, DefId)> = Vec::new();
        assert(known_view(out@) =~= Seq::empty());
        for i in 0..self.definitions.len()
            invariant
                all == module_definitions_view(self.definitions@),
                known_view(out@) == graph_ids(all, i as int),
        {
            let definition: &ModuleDefinition = &self.definitions[i];
            assert(all[i as int] == definition@);
            let ghost before = known_view(out@);
            out.push((definition.source_name.clone(), definition.id));
            out.push((definition.linker_name.clone(), definition.id));
            assert(known_view(out@) =~= before.push(
                (definition.source_name@, definition.id),
            ).push((definition.linker_name@, definition.id)));
        }
        out
    }
}

/// The identities that the first `n` definitions give to their names.
pub open spec fn graph_ids(definitions: Seq<ModuleDefinitionView>, n: int) -> Seq<
    (Seq<char>, DefId),
>
    decreases n,
{
    if n <= 0 || n > definitions.len() {
        Seq::empty()
    } else {
        let d = definitions[n - 1];
        graph_ids(definitions, n - 1).push((d.source_name, d.id)).push((d.linker_name, d.id))
    }
}

// ---------------------------------------------------------------------------
// Projects
// ---------------------------------------------------------------------------

/// The typed program of a project.
pub open spec fn project_analyzed(
    floats: crate::floats::FloatModel,
    program: ProgramView,
    graph: ModuleGraphView,
    pointer_width: u32,
) -> Result<TypedProgramView, FrontendErrorView> {
    pipeline::analyzed(
        floats,
        program,
        pointer_width,
        graph_ids(graph.definitions, graph.definitions.len() as int),
    )
}

/// The typed program of a project that can be built as a native program.
pub open spec fn native_analyzed(
    floats: crate::floats::FloatModel,
    program: ProgramView,
    graph: ModuleGraphView,
    pointer_width: u32,
) -> Result<TypedProgramView, FrontendErrorView> {
    match project_analyzed(floats, program, graph, pointer_width) {
        Err(error) => Err(error),
        Ok(typed) => match entry_point_problem(typed.functions) {
            Some(error) => Err(FrontendErrorView::Semantic(error)),
            None => Ok(typed),
        },
    }
}

impl Project {
    /// Analyzes the program under the identities of the graph.
    pub fn analyze<F: Fn(FloatOp, String, String) -> FloatAnswer>(
        &self,
        pointer_width: u32,
        floats: &F,
    ) -> (r: Result<TypedProgram, FrontendError>)
        requires
            answers(*floats),
        ensures
            typed_outcome(r) == project_analyzed(
                float_model(*floats),
                self@.program,
                self@.graph,
                pointer_width,
            ),
    {
        pipeline::analyze_resolved_program(&self.program, &self.graph, pointer_width, floats)
    }

    pub fn analyze_native<F: Fn(FloatOp, String, String) -> FloatAnswer>(&self, floats: &F) -> (r:
        Result<TypedProgram, FrontendError>)
        requires
            answers(*floats),
        ensures
            typed_outcome(r) == native_analyzed(
                float_model(*floats),
                self@.program,
                self@.graph,
                usize::BITS,
            ),
    {
        self.analyze_native_with_pointer_width(usize::BITS, floats)
    }

    /// As `analyze`, for a program that is to have an entry point.
    pub fn analyze_native_with_pointer_width<F: Fn(FloatOp, String, String) -> FloatAnswer>(
        &self,
        pointer_width: u32,
        floats: &F,
    ) -> (r: Result<TypedProgram, FrontendError>)
        requires
            answers(*floats),
        ensures
            typed_outcome(r) == native_analyzed(
                float_model(*floats),
                self@.program,
                self@.graph,
                pointer_width,
            ),
    {
        let typed: TypedProgram = self.analyze(pointer_width, floats)?;
        match semantic::validate_typed_entry_point(&typed) {
            Ok(()) => Ok(typed),
            Err(error) => Err(FrontendError::Semantic(error)),
        }
    }
}

impl ProjectError {
    pub fn to_string(&self) -> (r: String)
        ensures
            r@ == self@.message,
    {
        self.message.clone()
    }
}

// ---------------------------------------------------------------------------
// Resolving
// ---------------------------------------------------------------------------

fn find_file<'a>(files: &'a Vec<SourceFile>, path: &String) -> (r: Option<&'a SourceFile>)
    ensures
        match r {
            Some(file) => file_at(files_view(files@), 0, path@) == Some(file@),
            None => file_at(files_view(files@), 0, path@) is None,
        },
{
    let ghost all = files_view(files@);
    for i in 0..files.len()
        invariant
            all == files_view(files@),
            file_at(all, 0, path@) == file_at(all, i as int, path@),
    {
        assert(all[i as int] == files@[i as int]@);
        if files[i].path == *path {
            return Some(&files[i]);
        }
    }
    None
}

fn find_node(nodes: &Vec<Node>, path: &String) -> (r: Option<usize>)
    ensures
        match r {
            Some(i) => i < nodes@.len() && node_at(nodes_view(nodes@), 0, path@) == Some(i as int),
            None => node_at(nodes_view(nodes@), 0, path@) is None,
        },
{
    let ghost all = nodes_view(nodes@);
    for i in 0..nodes.len()
        invariant
            all == nodes_view(nodes@),
            node_at(all, 0, path@) == node_at(all, i as int, path@),
    {
        assert(all[i as int] == nodes@[i as int]@);
        if nodes[i].path == *path {
            return Some(i);
        }
    }
    None
}

/// A place to look for an imported file: beside the importing file, or under
/// a root, and whether the ending of source files is added to the name.
#[derive(Debug, Clone, Copy, PartialEq, Eq, Structural)]
pub struct SearchPlace {
    pub root: Option<usize>,
    pub adds_ending: bool,
}

/// Where an import is looked for: beside the importing file and then under
/// each root, with the ending too where the name has none.
pub open spec fn places(has_ending: bool, roots: int) -> Seq<SearchPlace>
    decreases roots + 1,
{
    if roots < 0 {
        Seq::empty()
    } else {
        let before = places(has_ending, roots - 1);
        let root: Option<usize> = if roots == 0 {
            None
        } else {
            Some((roots - 1) as usize)
        };
        let plain = before.push(SearchPlace { root, adds_ending: false });
        if has_ending {
            plain
        } else {
            plain.push(SearchPlace { root, adds_ending: true })
        }
    }
}

pub fn search_places(has_ending: bool, roots: usize) -> (r: Vec<SearchPlace>)
    ensures
        r@ == places(has_ending, roots as int),
{
    let mut out: Vec<SearchPlace> = Vec::new();
    out.push(SearchPlace { root: None, adds_ending: false });
    if !has_ending {
        out.push(SearchPlace { root: None, adds_ending: true });
    }
    assert(places(has_ending, -1) =~= Seq::empty());
    assert(out@ =~= places(has_ending, 0));
    for i in 0..roots
        invariant
            out@ == places(has_ending, i as int),
    {
        out.push(SearchPlace { root: Some(i), adds_ending: false });
        if !has_ending {
            out.push(SearchPlace { root: Some(i), adds_ending: true });
        }
    }
    out
}

/// The module that an import means: the only file there is for it.
pub fn find_module(importer: &String, requested: &String, found: &Vec<String>, span: Span) -> (r:
    Result<String, ProjectError>)
    ensures
        match found_module(importer@, requested@, texts(found@), span) {
            Ok(path) => r matches Ok(p) && p@ == path,
            Err(error) => r matches Err(e) && e@ == error,
        },
{
    if found.len() == 1 {
        Ok(found[0].clone())
    } else if found.len() == 0 {
        let start: String =
            joined(joined("module `".to_owned(), requested.as_str()), "` imported by `");
        let message: String = joined(joined(start, importer.as_str()), "` was not found");
        Err(ProjectError { message, span })
    } else {
        let start: String =
            joined(joined("ambiguous module `".to_owned(), requested.as_str()), "`: ");
        let list: String = join_texts(found, ", ");
        Err(ProjectError { message: joined(start, list.as_str()), span })
    }
}

fn import_cycle(visiting: &Vec<String>, path: &String, span: Span) -> (r: ProjectError)
    ensures
        r@ == resolution::cycle(texts(visiting@), path@, span),
{
    let mut chain: Vec<String> = clone_texts(visiting);
    chain.push(path.clone());
    assert(texts(chain@) =~= texts(visiting@).push(path@));
    let list: String = join_texts(&chain, " -> ");
    ProjectError { message: joined("module import cycle: ".to_owned(), list.as_str()), span }
}

fn unreadable(path: &String, why: &str) -> (r: ProjectError)
    ensures
        r@ == resolution::unreadable(path@, why@),
{
    let start: String = joined(joined("could not read module `".to_owned(), path.as_str()), "`: ");
    ProjectError { message: joined(start, why), span: Span { start: 0, end: 0 } }
}

/// Visits a module and, before it, those that it imports.
fn visit(
    files: &Vec<SourceFile>,
    nodes: Vec<Node>,
    visiting: &Vec<String>,
    path: &String,
    is_root: bool,
    span: Span,
    room: usize,
) -> (r: Result<(usize, Vec<Node>), ProjectError>)
    requires
        ordered(nodes_view(nodes@)),
    ensures
        match visited(
            files_view(files@),
            nodes_view(nodes@),
            texts(visiting@),
            path@,
            is_root,
            span,
            room as nat,
        ) {
            Ok((i, after)) => r matches Ok((index, out)) && index == i && index < out@.len()
                && nodes_view(out@) == after && ordered(after),
            Err(error) => r matches Err(e) && e@ == error,
        },
    decreases room, 1int,
{
    match find_node(&nodes, path) {
        Some(i) => {
            return Ok((i, nodes));
        },
        None => {},
    }
    if contains_text(visiting, path) {
        return Err(import_cycle(visiting, path, span));
    }
    let file: &SourceFile = match find_file(files, path) {
        Some(file) => file,
        None => {
            return Err(unreadable(path, "file is not loaded"));
        },
    };
    let program: Program = match &file.contents {
        Contents::Unreadable(why) => {
            return Err(unreadable(path, why.as_str()));
        },
        Contents::Text(source) => match pipeline::parse_source(source.as_str()) {
            Ok(program) => program,
            Err(error) => {
                let start: String = joined(joined("in module `".to_owned(), path.as_str()), "`: ");
                let what: String = error.to_string();
                return Err(
                    ProjectError { message: joined(start, what.as_str()), span: error.span() },
                );
            },
        },
    };
    if room == 0 {
        return Err(import_cycle(visiting, path, span));
    }
    let mut below: Vec<String> = clone_texts(visiting);
    below.push(path.clone());
    assert(texts(below@) =~= texts(visiting@).push(path@));
    let ghost old_nodes = nodes_view(nodes@);
    let (aliases, after): (Vec<(String, usize)>, Vec<Node>) = visit_imports(
        files,
        nodes,
        &below,
        file,
        &program.imports,
        room - 1,
    )?;
    let mut out: Vec<Node> = after;
    let ghost before = nodes_view(out@);
    let index: usize = out.len();
    let node: Node = Node { path: path.clone(), program, is_root, aliases };
    let ghost view = node@;
    out.push(node);
    proof {
        assert(nodes_view(out@) =~= before.push(view));
        lemma_visited(
            files_view(files@),
            old_nodes,
            texts(visiting@),
            path@,
            is_root,
            span,
            room as nat,
        );
    }
    Ok((index, out))
}

fn visit_imports(
    files: &Vec<SourceFile>,
    nodes: Vec<Node>,
    visiting: &Vec<String>,
    file: &SourceFile,
    imports: &Vec<ImportDecl>,
    room: usize,
) -> (r: Result<(Vec<(String, usize)>, Vec<Node>), ProjectError>)
    requires
        ordered(nodes_view(nodes@)),
    ensures
        match imports_visited(
            files_view(files@),
            nodes_view(nodes@),
            texts(visiting@),
            file@,
            imports_view(imports@),
            0,
            Seq::empty(),
            room as nat,
        ) {
            Ok((aliases, after)) => r matches Ok((found, out)) && aliases_view(found@) == aliases
                && nodes_view(out@) == after && ordered(after),
            Err(error) => r matches Err(e) && e@ == error,
        },
    decreases room, 2int,
{
    let ghost goal = imports_visited(
        files_view(files@),
        nodes_view(nodes@),
        texts(visiting@),
        file@,
        imports_view(imports@),
        0,
        Seq::empty(),
        room as nat,
    );
    let ghost all = imports_view(imports@);
    let mut known: Vec<Node> = nodes;
    let mut aliases: Vec<(String, usize)> = Vec::new();
    let none: Vec<String> = Vec::new();
    assert(aliases_view(aliases@) =~= Seq::empty());
    assert(texts(none@) =~= Seq::empty());
    for i in 0..imports.len()
        invariant
            all == imports_view(imports@),
            ordered(nodes_view(known@)),
            texts(none@) == Seq::<Seq<char>>::empty(),
            goal == imports_visited(
                files_view(files@),
                nodes_view(nodes@),
                texts(visiting@),
                file@,
                all,
                0,
                Seq::empty(),
                room as nat,
            ),
            goal == imports_visited(
                files_view(files@),
                nodes_view(known@),
                texts(visiting@),
                file@,
                all,
                i as int,
                aliases_view(aliases@),
                room as nat,
            ),
    {
        let import: &ImportDecl = &imports[i];
        assert(all[i as int] == import@);
        if alias_target(&aliases, &import.alias).is_some() {
            let message: String = joined(
                joined("duplicate module alias `".to_owned(), import.alias.as_str()),
                "`",
            );
            return Err(ProjectError { message, span: import.span });
        }
        let found: &Vec<String> = if i < file.found.len() {
            &file.found[i]
        } else {
            &none
        };
        assert(texts(found@) == findings(file@, i as int));
        let target: String = find_module(&file.path, &import.path, found, import.span)?;
        let (index, after): (usize, Vec<Node>) = visit(
            files,
            known,
            visiting,
            &target,
            false,
            import.span,
            room,
        )?;
        let ghost before = aliases_view(aliases@);
        known = after;
        aliases.push((import.alias.clone(), index));
        assert(aliases_view(aliases@) =~= before.push((import.alias@, index as int)));
    }
    Ok((aliases, known))
}

/// The definitions of the graph.
fn graph_definitions(nodes: &Vec<Node>) -> (r: Vec<ModuleDefinition>)
    ensures
        module_definitions_view(r@) == resolution::all_definitions(
            nodes_view(nodes@),
            nodes@.len() as int,
        ),
{
    let ghost all = nodes_view(nodes@);
    let mut out: Vec<ModuleDefinition> = Vec::new();
    assert(module_definitions_view(out@) =~= Seq::empty());
    for k in 0..nodes.len()
        invariant
            all == nodes_view(nodes@),
            module_definitions_view(out@) == resolution::all_definitions(all, k as int),
    {
        let decls: &Vec<Decl> = &nodes[k].program.declarations;
        assert(all[k as int] == nodes@[k as int]@);
        let ghost before = module_definitions_view(out@);
        assert(before + resolution::module_definitions(all, k as int, 0) =~= before);
        for i in 0..decls.len()
            invariant
                k < nodes.len(),
                all == nodes_view(nodes@),
                all[k as int].program.declarations == decls_view(decls@),
                module_definitions_view(out@) == before + resolution::module_definitions(
                    all,
                    k as int,
                    i as int,
                ),
        {
            assert(decls_view(decls@)[i as int] == decls@[i as int]@);
            let ghost mine = resolution::module_definitions(all, k as int, i as int);
            match declared_name(&decls[i]) {
                Some(name) => {
                    proof {
                        resolution::lemma_declared_has_identity(all, k as int, i as int);
                    }
                    let id: DefId = match linking::identity(nodes, k, name) {
                        Some(id) => id,
                        None => DefId(0),
                    };
                    let linker: String = match linking::linker_name(nodes, k, name) {
                        Some(full) => full,
                        None => name.clone(),
                    };
                    let linker_name: String = match &decls[i] {
                        Decl::Function(f) => match &f.link_name {
                            Some(link) => link.clone(),
                            None => linker,
                        },
                        _ => linker,
                    };
                    let definition: ModuleDefinition = ModuleDefinition {
                        id,
                        module: ModuleId(id_number(k)),
                        source_name: name.clone(),
                        linker_name,
                        kind: definition_kind(&decls[i]),
                        exported: exports(&decls[i]),
                    };
                    let ghost view = definition@;
                    let ghost shown = module_definitions_view(out@);
                    proof {
                        lemma_module_definitions_push(out@, definition);
                    }
                    out.push(definition);
                    assert(view == resolution::definition_of(
                        all,
                        k as int,
                        decls@[i as int]@,
                        name@,
                    ));
                    assert((before + mine).push(view) =~= before + mine.push(view));
                },
                None => {},
            }
        }
    }
    out
}

/// The identities of what module `k` declares.
fn module_ids(nodes: &Vec<Node>, k: usize) -> (r: Vec<DefId>)
    requires
        k < nodes.len(),
    ensures
        r@ == resolution::module_ids(
            nodes_view(nodes@),
            k as int,
            nodes_view(nodes@)[k as int].program.declarations.len() as int,
        ),
{
    let ghost all = nodes_view(nodes@);
    let decls: &Vec<Decl> = &nodes[k].program.declarations;
    let ghost views = decls_view(decls@);
    assert(all[k as int].program.declarations == views);
    let mut ids: Vec<DefId> = Vec::new();
    for i in 0..decls.len()
        invariant
            k < nodes.len(),
            all == nodes_view(nodes@),
            views == decls_view(decls@),
            all[k as int].program.declarations == views,
            ids@ == resolution::module_ids(all, k as int, i as int),
    {
        assert(views[i as int] == decls@[i as int]@);
        match declared_name(&decls[i]) {
            Some(name) => {
                let found: Option<DefId> = linking::identity(nodes, k, name);
                proof {
                    resolution::lemma_declared_has_identity(all, k as int, i as int);
                }
                match found {
                    Some(id) => {
                        ids.push(id);
                    },
                    None => {},
                }
            },
            None => {},
        }
    }
    ids
}

/// What the graph says of module `k`.
fn module_info(nodes: &Vec<Node>, k: usize) -> (r: ModuleInfo)
    requires
        k < nodes.len(),
    ensures
        r@ == resolution::module_info(nodes_view(nodes@), k as int),
{
    let ghost all = nodes_view(nodes@);
    let node: &Node = &nodes[k];
    assert(all[k as int] == node@);
    let list: &Vec<ImportDecl> = &node.program.imports;
    let mut imports: Vec<ModuleImport> = Vec::new();
    assert(module_imports_view(imports@) =~= Seq::empty());
    for i in 0..list.len()
        invariant
            all[k as int] == node@,
            node@.program.imports == imports_view(list@),
            module_imports_view(imports@) == resolution::module_imports(all, k as int, i as int),
    {
        assert(imports_view(list@)[i as int] == list@[i as int]@);
        match alias_target(&node.aliases, &list[i].alias) {
            Some(t) => {
                let import: ModuleImport = ModuleImport {
                    alias: list[i].alias.clone(),
                    target: ModuleId(id_number(t)),
                    span: list[i].span,
                };
                proof {
                    lemma_module_imports_push(imports@, import);
                }
                imports.push(import);
            },
            None => {},
        }
    }
    let declarations: Vec<DefId> = module_ids(nodes, k);
    ModuleInfo { id: ModuleId(id_number(k)), path: node.path.clone(), imports, declarations }
}

/// The graph of the modules.
fn build_graph(nodes: &Vec<Node>, root: usize) -> (r: ModuleGraph)
    ensures
        r@ == graph_of(nodes_view(nodes@), root as int),
{
    let ghost all = nodes_view(nodes@);
    let mut modules: Vec<ModuleInfo> = Vec::new();
    for k in 0..nodes.len()
        invariant
            all == nodes_view(nodes@),
            modules.len() == k,
            forall|j: int|
                0 <= j < k ==> (#[trigger] modules@[j])@ == resolution::module_info(all, j),
    {
        modules.push(module_info(nodes, k));
    }
    assert(module_infos_view(modules@) =~= graph_of(all, root as int).modules);
    ModuleGraph {
        root: ModuleId(id_number(root)),
        modules,
        definitions: graph_definitions(nodes),
    }
}

/// The project that a root file and the files it leads to make.
pub fn resolve(root: &String, files: &Vec<SourceFile>) -> (r: Result<Project, ProjectError>)
    ensures
        match resolved(files_view(files@), root@) {
            Ok(project) => r matches Ok(p) && p@ == project,
            Err(error) => r matches Err(e) && e@ == error,
        },
{
    let source: String = match find_file(files, root) {
        None => {
            return Err(unread(root, "file is not loaded"));
        },
        Some(file) => match &file.contents {
            Contents::Unreadable(why) => {
                return Err(unread(root, why.as_str()));
            },
            Contents::Text(source) => source.clone(),
        },
    };
    let none: Vec<Node> = Vec::new();
    let visiting: Vec<String> = Vec::new();
    assert(nodes_view(none@) =~= Seq::empty());
    assert(texts(visiting@) =~= Seq::empty());
    let (index, nodes): (usize, Vec<Node>) = visit(
        files,
        none,
        &visiting,
        root,
        true,
        Span { start: 0, end: 0 },
        files.len(),
    )?;
    let ghost all = nodes_view(nodes@);
    linking::validate_modules(&nodes)?;
    let program: Program = Program {
        imports: Vec::new(),
        declarations: linking::rewrite_modules(&nodes),
    };
    assert(imports_view(program.imports@) =~= Seq::empty());
    let graph: ModuleGraph = build_graph(&nodes, index);
    let mut dependencies: Vec<String> = Vec::new();
    for k in 0..nodes.len()
        invariant
            all == nodes_view(nodes@),
            dependencies.len() == k,
            forall|j: int| 0 <= j < k ==> (#[trigger] dependencies@[j])@ == all[j].path,
    {
        dependencies.push(nodes[k].path.clone());
    }
    assert(texts(dependencies@) =~= Seq::new(all.len(), |k: int| all[k].path));
    Ok(Project { program, graph, root_source: source, root_path: root.clone(), dependencies })
}

fn unread(root: &String, why: &str) -> (r: ProjectError)
    ensures
        r@ == unread_root(root@, why@),
{
    let start: String = joined(joined("could not read `".to_owned(), root.as_str()), "`: ");
    ProjectError { message: joined(start, why), span: Span { start: 0, end: 0 } }
}

}
