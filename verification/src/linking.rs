//! Checks what modules name of each other, and gives them the names of one
//! program.
use crate::ast::{
    decls_view, exprs_view, fields_view, generics_clone, inits_view, parameters_view, stmts_view,
    Block, Decl, DeclView, Expr, ExprView, FunctionDecl, Parameter, Program, Stmt, StructDecl,
    StructField, StructInit, Type, VariableDecl,
};
use crate::lexer::Span;
use crate::modules::ProjectError;
use crate::resolution;
use crate::resolution::{ordered, Checked, NodeView};
use crate::semantic::{declared_name, find_declaration};
use crate::text::{clone_texts, contains_text, decimal_text, joined, split_once_char, texts};
use crate::typed::DefId;
use crate::typing;
use crate::typing::Sort;
use vstd::prelude::*;

verus! {

broadcast use crate::ast::group_ast_lists;

/// A module on its way into the program: its imports by alias, each the place
/// of another module.
pub struct Node {
    pub path: String,
    pub program: Program,
    pub is_root: bool,
    pub aliases: Vec<(String, usize)>,
}

pub open spec fn aliases_view(s: Seq<(String, usize)>) -> Seq<(Seq<char>, int)> {
    Seq::new(s.len(), |i: int| (s[i].0@, s[i].1 as int))
}

impl Node {
    pub open spec fn view(&self) -> NodeView {
        NodeView {
            path: self.path@,
            program: self.program@,
            is_root: self.is_root,
            aliases: aliases_view(self.aliases@),
        }
    }
}

pub open spec fn nodes_view(s: Seq<Node>) -> Seq<NodeView> {
    Seq::new(s.len(), |i: int| s[i]@)
}

pub open spec fn checked(r: Result<(), ProjectError>) -> Checked {
    match r {
        Ok(()) => Ok(()),
        Err(error) => Err(error@),
    }
}

// ---------------------------------------------------------------------------
// Names
// ---------------------------------------------------------------------------

proof fn lemma_last_named(decls: Seq<DeclView>, n: int, name: Seq<char>)
    ensures
        resolution::last_named(decls, n, name) == typing::find_declaration(
            decls,
            n,
            name,
            Sort::Any,
        ),
        resolution::last_named(decls, n, name) matches Some(i) ==> 0 <= i < n
            && typing::declared_name(decls[i]) == Some(name),
    decreases n,
{
    if n > 0 && n <= decls.len() {
        lemma_last_named(decls, n - 1, name);
    }
}

/// Where the module declares the name last.
pub fn last_named(decls: &Vec<Decl>, name: &String) -> (r: Option<usize>)
    ensures
        match r {
            Some(i) => i < decls.len() && resolution::last_named(
                decls_view(decls@),
                decls@.len() as int,
                name@,
            ) == Some(i as int),
            None => resolution::last_named(
                decls_view(decls@),
                decls@.len() as int,
                name@,
            ) is None,
        },
{
    proof {
        lemma_last_named(decls_view(decls@), decls@.len() as int, name@);
    }
    find_declaration(decls, decls.len(), name, Sort::Any)
}

/// How many of the first `n` declarations have a name.
fn named_count(decls: &Vec<Decl>, n: usize) -> (r: usize)
    requires
        n <= decls.len(),
    ensures
        r == resolution::named_count(decls_view(decls@), n as int),
        r <= n,
{
    let ghost all = decls_view(decls@);
    let mut count: usize = 0;
    for i in 0..n
        invariant
            n <= decls.len(),
            all == decls_view(decls@),
            count == resolution::named_count(all, i as int),
            count <= i,
    {
        assert(all[i as int] == decls@[i as int]@);
        if declared_name(&decls[i]).is_some() {
            count += 1;
        }
    }
    count
}

/// How many named declarations the first `k` modules have, modulo the number
/// of identities there are.
fn count_before(nodes: &Vec<Node>, k: usize) -> (r: u32)
    requires
        k <= nodes.len(),
    ensures
        r == resolution::count_before(nodes_view(nodes@), k as int) % 0x1_0000_0000,
{
    let ghost all = nodes_view(nodes@);
    let mut count: u32 = 0;
    for i in 0..k
        invariant
            k <= nodes.len(),
            all == nodes_view(nodes@),
            count == resolution::count_before(all, i as int) % 0x1_0000_0000,
    {
        let decls: &Vec<Decl> = &nodes[i].program.declarations;
        assert(all[i as int] == nodes@[i as int]@);
        let more: usize = named_count(decls, decls.len());
        count = count.wrapping_add(id_number(more));
        proof {
            let a = resolution::count_before(all, i as int) as int;
            vstd::arithmetic::div_mod::lemma_add_mod_noop(a, more as int, 0x1_0000_0000);
        }
    }
    count
}

/// The identity that a name has in module `k`.
pub fn identity(nodes: &Vec<Node>, k: usize, name: &String) -> (r: Option<DefId>)
    requires
        k < nodes.len(),
    ensures
        r == resolution::identity(nodes_view(nodes@), k as int, name@),
{
    let decls: &Vec<Decl> = &nodes[k].program.declarations;
    assert(nodes_view(nodes@)[k as int] == nodes@[k as int]@);
    match last_named(decls, name) {
        Some(i) => {
            let before: u32 = count_before(nodes, k);
            let within: usize = named_count(decls, i);
            proof {
                let a = resolution::count_before(nodes_view(nodes@), k as int) as int;
                vstd::arithmetic::div_mod::lemma_add_mod_noop(a, within as int, 0x1_0000_0000);
            }
            Some(DefId(before.wrapping_add(id_number(within))))
        },
        None => None,
    }
}

pub open spec fn optional(r: Option<String>) -> Option<Seq<char>> {
    match r {
        Some(text) => Some(text@),
        None => None,
    }
}

/// The name that the linker sees for a declaration of module `k`.
pub fn linker_name(nodes: &Vec<Node>, k: usize, name: &String) -> (r: Option<String>)
    requires
        k < nodes.len(),
    ensures
        optional(r) == resolution::linker_name(nodes_view(nodes@), k as int, name@),
{
    assert(nodes_view(nodes@)[k as int] == nodes@[k as int]@);
    match last_named(&nodes[k].program.declarations, name) {
        None => None,
        Some(_) => {
            if nodes[k].is_root {
                Some(name.clone())
            } else {
                let id: u32 = id_number(k);
                let number: String = decimal_text(id as u128);
                Some(
                    joined(
                        joined(joined("__module_".to_owned(), number.as_str()), "_"),
                        name.as_str(),
                    ),
                )
            }
        },
    }
}

/// A number, modulo the number of identities there are.
pub fn id_number(k: usize) -> (r: u32)
    ensures
        r == (k as int) % 0x1_0000_0000,
        resolution::module_id(k as int).0 == r,
{
    ((k as u64) % 0x1_0000_0000) as u32
}

fn linker_name_or(nodes: &Vec<Node>, k: usize, name: &String) -> (r: String)
    requires
        k < nodes.len(),
    ensures
        r@ == resolution::linker_name_or(nodes_view(nodes@), k as int, name@),
{
    match linker_name(nodes, k, name) {
        Some(full) => full,
        None => name.clone(),
    }
}

/// Where an alias leads.
pub fn alias_target(aliases: &Vec<(String, usize)>, alias: &String) -> (r: Option<usize>)
    ensures
        match r {
            Some(t) => resolution::alias_target(aliases_view(aliases@), 0, alias@) == Some(
                t as int,
            ) && exists|j: int| 0 <= j < aliases@.len() && (#[trigger] aliases@[j]).1 == t,
            None => resolution::alias_target(aliases_view(aliases@), 0, alias@) is None,
        },
{
    let ghost all = aliases_view(aliases@);
    for i in 0..aliases.len()
        invariant
            all == aliases_view(aliases@),
            resolution::alias_target(all, 0, alias@) == resolution::alias_target(
                all,
                i as int,
                alias@,
            ),
    {
        assert(all[i as int] == (aliases@[i as int].0@, aliases@[i as int].1 as int));
        if aliases[i].0 == *alias {
            return Some(aliases[i].1);
        }
    }
    None
}

/// The module that an alias of module `k` leads to.
fn target_of(nodes: &Vec<Node>, k: usize, alias: &String) -> (r: Option<usize>)
    requires
        k < nodes.len(),
        ordered(nodes_view(nodes@)),
    ensures
        match r {
            Some(t) => t < k && resolution::target_of(nodes_view(nodes@), k as int, alias@)
                == Some(t as int),
            None => resolution::target_of(nodes_view(nodes@), k as int, alias@) is None,
        },
{
    let ghost all = nodes_view(nodes@);
    assert(all[k as int] == nodes@[k as int]@);
    let found: Option<usize> = alias_target(&nodes[k].aliases, alias);
    proof {
        if let Some(t) = found {
            let aliases = nodes@[k as int].aliases@;
            let j = choose|j: int| 0 <= j < aliases.len() && (#[trigger] aliases[j]).1 == t;
            assert(all[k as int].aliases[j].1 == t);
        }
    }
    found
}

/// Whether a declaration is exported.
pub fn exports(d: &Decl) -> (r: bool)
    ensures
        r == resolution::exports(d@),
{
    match d {
        Decl::Function(f) => f.exported,
        Decl::Struct(s) => s.exported,
        Decl::Variable(v) => v.exported,
        Decl::Comptime { .. } => false,
    }
}

fn exports_name(decls: &Vec<Decl>, name: &String) -> (r: bool)
    ensures
        r == resolution::exports_name(decls_view(decls@), name@),
{
    let ghost all = decls_view(decls@);
    for i in 0..decls.len()
        invariant
            all == decls_view(decls@),
            forall|j: int|
                0 <= j < i ==> !(resolution::exports(#[trigger] all[j]) && typing::declared_name(
                    all[j],
                ) == Some(name@)),
    {
        assert(all[i as int] == decls@[i as int]@);
        if exports(&decls[i]) {
            match declared_name(&decls[i]) {
                Some(found) => {
                    if *found == *name {
                        return true;
                    }
                },
                None => {},
            }
        }
    }
    false
}

fn is_visible(nodes: &Vec<Node>, k: usize, alias: &String, name: &String) -> (r: bool)
    requires
        k < nodes.len(),
        ordered(nodes_view(nodes@)),
    ensures
        r == resolution::is_visible(nodes_view(nodes@), k as int, alias@, name@),
{
    match target_of(nodes, k, alias) {
        Some(t) => {
            assert(nodes_view(nodes@)[t as int] == nodes@[t as int]@);
            exports_name(&nodes[t].program.declarations, name)
        },
        None => false,
    }
}

fn qualified_name(nodes: &Vec<Node>, k: usize, alias: &String, name: &String) -> (r: Option<String>)
    requires
        k < nodes.len(),
        ordered(nodes_view(nodes@)),
    ensures
        optional(r) == resolution::qualified_name(nodes_view(nodes@), k as int, alias@, name@),
{
    match target_of(nodes, k, alias) {
        Some(t) => linker_name(nodes, t, name),
        None => None,
    }
}

/// Whether module `k` declares a struct of the name.
fn local_struct(nodes: &Vec<Node>, k: usize, name: &String) -> (r: bool)
    requires
        k < nodes.len(),
    ensures
        r == resolution::declares_struct(
            nodes_view(nodes@)[k as int].program.declarations,
            name@,
        ),
{
    let decls: &Vec<Decl> = &nodes[k].program.declarations;
    let ghost all = decls_view(decls@);
    assert(nodes_view(nodes@)[k as int] == nodes@[k as int]@);
    for i in 0..decls.len()
        invariant
            k < nodes.len(),
            all == decls_view(decls@),
            all == nodes_view(nodes@)[k as int].program.declarations,
            forall|j: int|
                0 <= j < i ==> !(#[trigger] all[j] is Struct && typing::declared_name(all[j])
                    == Some(name@)),
    {
        assert(all[i as int] == decls@[i as int]@);
        match &decls[i] {
            Decl::Struct(s) => {
                if s.name == *name {
                    assert(all[i as int] is Struct);
                    assert(typing::declared_name(all[i as int]) == Some(name@));
                    return true;
                }
            },
            _ => {},
        }
    }
    false
}

// ---------------------------------------------------------------------------
// Visibility
// ---------------------------------------------------------------------------

fn visible_name(nodes: &Vec<Node>, k: usize, alias: &String, name: &String, span: Span) -> (r:
    Result<(), ProjectError>)
    requires
        k < nodes.len(),
        ordered(nodes_view(nodes@)),
    ensures
        checked(r) == resolution::visible_name(nodes_view(nodes@), k as int, alias@, name@, span),
{
    if target_of(nodes, k, alias).is_some() && !is_visible(nodes, k, alias, name) {
        let what: String = joined(
            joined(joined("`".to_owned(), alias.as_str()), "."),
            name.as_str(),
        );
        let message: String = joined(
            joined(joined(what, "` is not exported by module `"), alias.as_str()),
            "`",
        );
        Err(ProjectError { message, span })
    } else {
        Ok(())
    }
}

fn visible_dotted(nodes: &Vec<Node>, k: usize, name: &String, span: Span) -> (r: Result<
    (),
    ProjectError,
>)
    requires
        k < nodes.len(),
        ordered(nodes_view(nodes@)),
    ensures
        checked(r) == resolution::visible_dotted(nodes_view(nodes@), k as int, name@, span),
{
    match split_once_char(name, '.') {
        Some((alias, item)) => visible_name(nodes, k, &alias, &item, span),
        None => Ok(()),
    }
}

fn validate_type_visibility(nodes: &Vec<Node>, k: usize, ty: &Type) -> (r: Result<
    (),
    ProjectError,
>)
    requires
        k < nodes.len(),
        ordered(nodes_view(nodes@)),
    ensures
        checked(r) == resolution::visible_type(nodes_view(nodes@), k as int, ty@),
    decreases ty,
{
    match ty {
        Type::Named(name) => visible_dotted(nodes, k, name, Span { start: 0, end: 0 }),
        Type::Pointer(x) => validate_type_visibility(nodes, k, x),
        Type::Slice(x) => validate_type_visibility(nodes, k, x),
        Type::Array { element, .. } => validate_type_visibility(nodes, k, element),
        Type::Result { success, error } => {
            validate_type_visibility(nodes, k, success)?;
            validate_type_visibility(nodes, k, error)
        },
        Type::Unit => Ok(()),
    }
}

fn validate_expr_visibility(nodes: &Vec<Node>, k: usize, e: &Expr) -> (r: Result<
    (),
    ProjectError,
>)
    requires
        k < nodes.len(),
        ordered(nodes_view(nodes@)),
    ensures
        checked(r) == resolution::visible_expr(nodes_view(nodes@), k as int, e@),
    decreases e,
{
    match e {
        Expr::Field { base, name, span } => {
            let ghost inner = base@;
            match &**base {
                Expr::Identifier { name: alias, .. } => {
                    assert(inner matches ExprView::Identifier { name: written, .. } && written
                        == alias@);
                    visible_name(nodes, k, alias, name, *span)?;
                },
                _ => {
                    assert(!(inner is Identifier));
                },
            }
            validate_expr_visibility(nodes, k, base)
        },
        Expr::StructLiteral { name, fields, span } => {
            visible_dotted(nodes, k, name, *span)?;
            validate_inits_visibility(nodes, k, fields)
        },
        Expr::Index { base, index, .. } => {
            validate_expr_visibility(nodes, k, base)?;
            validate_expr_visibility(nodes, k, index)
        },
        Expr::UncheckedIndex { base, index, .. } => {
            validate_expr_visibility(nodes, k, base)?;
            validate_expr_visibility(nodes, k, index)
        },
        Expr::Unary { operand, .. } => validate_expr_visibility(nodes, k, operand),
        Expr::Propagate { expression, .. } => validate_expr_visibility(nodes, k, expression),
        Expr::Comptime { expression, .. } => validate_expr_visibility(nodes, k, expression),
        Expr::Binary { left, right, .. } => {
            validate_expr_visibility(nodes, k, left)?;
            validate_expr_visibility(nodes, k, right)
        },
        Expr::Call { callee, arguments, .. } => {
            validate_expr_visibility(nodes, k, callee)?;
            validate_exprs_visibility(nodes, k, arguments)
        },
        Expr::ArrayLiteral { ty, elements, .. } => {
            validate_type_visibility(nodes, k, ty)?;
            validate_exprs_visibility(nodes, k, elements)
        },
        Expr::SizeOf { ty, .. } => validate_type_visibility(nodes, k, ty),
        Expr::AlignOf { ty, .. } => validate_type_visibility(nodes, k, ty),
        Expr::OffsetOf { ty, .. } => validate_type_visibility(nodes, k, ty),
        Expr::Integer { .. } => Ok(()),
        Expr::Float { .. } => Ok(()),
        Expr::String { .. } => Ok(()),
        Expr::Bool { .. } => Ok(()),
        Expr::Null { .. } => Ok(()),
        Expr::Identifier { .. } => Ok(()),
    }
}

fn validate_exprs_visibility(nodes: &Vec<Node>, k: usize, es: &Vec<Expr>) -> (r: Result<
    (),
    ProjectError,
>)
    requires
        k < nodes.len(),
        ordered(nodes_view(nodes@)),
    ensures
        checked(r) == resolution::visible_exprs(nodes_view(nodes@), k as int, exprs_view(es@), 0),
    decreases es,
{
    let ghost all = exprs_view(es@);
    for i in 0..es.len()
        invariant
            k < nodes.len(),
            ordered(nodes_view(nodes@)),
            all == exprs_view(es@),
            resolution::visible_exprs(nodes_view(nodes@), k as int, all, 0)
                == resolution::visible_exprs(nodes_view(nodes@), k as int, all, i as int),
    {
        assert(all[i as int] == es@[i as int]@);
        validate_expr_visibility(nodes, k, &es[i])?;
    }
    Ok(())
}

fn validate_inits_visibility(nodes: &Vec<Node>, k: usize, inits: &Vec<StructInit>) -> (r: Result<
    (),
    ProjectError,
>)
    requires
        k < nodes.len(),
        ordered(nodes_view(nodes@)),
    ensures
        checked(r) == resolution::visible_inits(
            nodes_view(nodes@),
            k as int,
            inits_view(inits@),
            0,
        ),
    decreases inits,
{
    let ghost all = inits_view(inits@);
    for i in 0..inits.len()
        invariant
            k < nodes.len(),
            ordered(nodes_view(nodes@)),
            all == inits_view(inits@),
            resolution::visible_inits(nodes_view(nodes@), k as int, all, 0)
                == resolution::visible_inits(nodes_view(nodes@), k as int, all, i as int),
    {
        assert(all[i as int] == inits@[i as int]@);
        validate_expr_visibility(nodes, k, &inits[i].value)?;
    }
    Ok(())
}

fn validate_block_visibility(nodes: &Vec<Node>, k: usize, b: &Block) -> (r: Result<
    (),
    ProjectError,
>)
    requires
        k < nodes.len(),
        ordered(nodes_view(nodes@)),
    ensures
        checked(r) == resolution::visible_block(nodes_view(nodes@), k as int, b@),
    decreases b,
{
    let ghost all = stmts_view(b.statements@);
    for i in 0..b.statements.len()
        invariant
            k < nodes.len(),
            ordered(nodes_view(nodes@)),
            all == stmts_view(b.statements@),
            resolution::visible_block(nodes_view(nodes@), k as int, b@)
                == resolution::visible_statements(nodes_view(nodes@), k as int, all, i as int),
    {
        assert(all[i as int] == b.statements@[i as int]@);
        validate_stmt_visibility(nodes, k, &b.statements[i])?;
    }
    Ok(())
}

fn validate_variable_visibility(nodes: &Vec<Node>, k: usize, v: &VariableDecl) -> (r: Result<
    (),
    ProjectError,
>)
    requires
        k < nodes.len(),
        ordered(nodes_view(nodes@)),
    ensures
        checked(r) == resolution::visible_variable(nodes_view(nodes@), k as int, v@),
{
    match &v.ty {
        Some(ty) => {
            validate_type_visibility(nodes, k, ty)?;
        },
        None => {},
    }
    validate_expr_visibility(nodes, k, &v.value)
}

fn validate_stmt_visibility(nodes: &Vec<Node>, k: usize, s: &Stmt) -> (r: Result<
    (),
    ProjectError,
>)
    requires
        k < nodes.len(),
        ordered(nodes_view(nodes@)),
    ensures
        checked(r) == resolution::visible_statement(nodes_view(nodes@), k as int, s@),
    decreases s,
{
    match s {
        Stmt::If { condition, then_branch, else_branch, .. } => {
            validate_expr_visibility(nodes, k, condition)?;
            validate_block_visibility(nodes, k, then_branch)?;
            match else_branch {
                Some(branch) => validate_block_visibility(nodes, k, branch),
                None => Ok(()),
            }
        },
        Stmt::While { condition, body, .. } => {
            validate_expr_visibility(nodes, k, condition)?;
            validate_block_visibility(nodes, k, body)
        },
        Stmt::Defer { call, .. } => validate_expr_visibility(nodes, k, call),
        Stmt::Expr { expression, .. } => validate_expr_visibility(nodes, k, expression),
        Stmt::Return { value, .. } => match value {
            Some(e) => validate_expr_visibility(nodes, k, e),
            None => Ok(()),
        },
        Stmt::Variable(v) => validate_variable_visibility(nodes, k, v),
        Stmt::Assignment { target, value, .. } => {
            validate_expr_visibility(nodes, k, target)?;
            validate_expr_visibility(nodes, k, value)
        },
        Stmt::Break { .. } => Ok(()),
        Stmt::Continue { .. } => Ok(()),
    }
}

fn validate_visibility(nodes: &Vec<Node>, k: usize, d: &Decl) -> (r: Result<(), ProjectError>)
    requires
        k < nodes.len(),
        ordered(nodes_view(nodes@)),
    ensures
        checked(r) == resolution::visible_declaration(nodes_view(nodes@), k as int, d@),
{
    match d {
        Decl::Struct(s) => {
            let ghost all = fields_view(s.fields@);
            for i in 0..s.fields.len()
                invariant
                    k < nodes.len(),
                    ordered(nodes_view(nodes@)),
                    all == fields_view(s.fields@),
                    resolution::visible_fields(nodes_view(nodes@), k as int, all, 0)
                        == resolution::visible_fields(
                        nodes_view(nodes@),
                        k as int,
                        all,
                        i as int,
                    ),
                    d@ matches DeclView::Struct(view) && view.fields == all,
            {
                assert(all[i as int] == s.fields@[i as int]@);
                validate_type_visibility(nodes, k, &s.fields[i].ty)?;
            }
            Ok(())
        },
        Decl::Variable(v) => validate_variable_visibility(nodes, k, v),
        Decl::Function(f) => {
            let ghost all = parameters_view(f.params@);
            for i in 0..f.params.len()
                invariant
                    k < nodes.len(),
                    ordered(nodes_view(nodes@)),
                    all == parameters_view(f.params@),
                    resolution::visible_parameters(nodes_view(nodes@), k as int, all, 0)
                        == resolution::visible_parameters(
                        nodes_view(nodes@),
                        k as int,
                        all,
                        i as int,
                    ),
                    d@ matches DeclView::Function(view) && view.params == all,
            {
                assert(all[i as int] == f.params@[i as int]@);
                validate_type_visibility(nodes, k, &f.params[i].ty)?;
            }
            validate_type_visibility(nodes, k, &f.return_type)?;
            validate_block_visibility(nodes, k, &f.body)
        },
        Decl::Comptime { expression, .. } => validate_expr_visibility(nodes, k, expression),
    }
}

/// Every module names only what the modules it imports export.
pub fn validate_modules(nodes: &Vec<Node>) -> (r: Result<(), ProjectError>)
    requires
        ordered(nodes_view(nodes@)),
    ensures
        checked(r) == resolution::visible_modules(nodes_view(nodes@), 0),
{
    let ghost all = nodes_view(nodes@);
    for k in 0..nodes.len()
        invariant
            ordered(all),
            all == nodes_view(nodes@),
            resolution::visible_modules(all, 0) == resolution::visible_modules(all, k as int),
    {
        let decls: &Vec<Decl> = &nodes[k].program.declarations;
        assert(all[k as int] == nodes@[k as int]@);
        for i in 0..decls.len()
            invariant
                k < nodes.len(),
                ordered(all),
                all == nodes_view(nodes@),
                all[k as int].program.declarations == decls_view(decls@),
                resolution::visible_modules(all, 0) == resolution::visible_modules(all, k as int),
                resolution::visible_declarations(all, k as int, 0)
                    == resolution::visible_declarations(all, k as int, i as int),
        {
            assert(decls_view(decls@)[i as int] == decls@[i as int]@);
            validate_visibility(nodes, k, &decls[i])?;
        }
    }
    Ok(())
}

// ---------------------------------------------------------------------------
// Renaming
// ---------------------------------------------------------------------------

fn map_type(nodes: &Vec<Node>, k: usize, ty: &Type) -> (r: Type)
    requires
        k < nodes.len(),
        ordered(nodes_view(nodes@)),
    ensures
        r@ == resolution::mapped_type(nodes_view(nodes@), k as int, ty@),
    decreases ty,
{
    match ty {
        Type::Named(name) => {
            if local_struct(nodes, k, name) {
                return Type::Named(linker_name_or(nodes, k, name));
            }
            match split_once_char(name, '.') {
                Some((alias, item)) => {
                    if is_visible(nodes, k, &alias, &item) {
                        match qualified_name(nodes, k, &alias, &item) {
                            Some(full) => Type::Named(full),
                            None => ty.clone(),
                        }
                    } else {
                        ty.clone()
                    }
                },
                None => ty.clone(),
            }
        },
        Type::Unit => Type::Unit,
        Type::Pointer(x) => Type::Pointer(Box::new(map_type(nodes, k, x))),
        Type::Slice(x) => Type::Slice(Box::new(map_type(nodes, k, x))),
        Type::Array { length, element } => Type::Array {
            length: *length,
            element: Box::new(map_type(nodes, k, element)),
        },
        Type::Result { success, error } => Type::Result {
            success: Box::new(map_type(nodes, k, success)),
            error: Box::new(map_type(nodes, k, error)),
        },
    }
}

fn map_option(nodes: &Vec<Node>, k: usize, ty: &Option<Type>) -> (r: Option<Type>)
    requires
        k < nodes.len(),
        ordered(nodes_view(nodes@)),
    ensures
        match ty {
            Some(ty) => r matches Some(mapped) && mapped@ == resolution::mapped_type(
                nodes_view(nodes@),
                k as int,
                ty@,
            ),
            None => r is None,
        },
{
    match ty {
        Some(ty) => Some(map_type(nodes, k, ty)),
        None => None,
    }
}

fn map_type_name(nodes: &Vec<Node>, k: usize, name: &String) -> (r: String)
    requires
        k < nodes.len(),
        ordered(nodes_view(nodes@)),
    ensures
        r@ == resolution::mapped_literal(nodes_view(nodes@), k as int, name@),
{
    match split_once_char(name, '.') {
        Some((alias, item)) => match qualified_name(nodes, k, &alias, &item) {
            Some(full) => full,
            None => name.clone(),
        },
        None => {
            if local_struct(nodes, k, name) {
                linker_name_or(nodes, k, name)
            } else {
                name.clone()
            }
        },
    }
}

fn map_member(nodes: &Vec<Node>, k: usize, alias: &String, name: &String) -> (r: String)
    requires
        k < nodes.len(),
        ordered(nodes_view(nodes@)),
    ensures
        r@ == resolution::mapped_member(nodes_view(nodes@), k as int, alias@, name@),
{
    if is_visible(nodes, k, alias, name) {
        match qualified_name(nodes, k, alias, name) {
            Some(full) => {
                return full;
            },
            None => {},
        }
    }
    joined(joined(alias.clone(), "."), name.as_str())
}

fn map_name(nodes: &Vec<Node>, k: usize, bound: &Vec<String>, name: &String) -> (r: String)
    requires
        k < nodes.len(),
    ensures
        r@ == if texts(bound@).contains(name@) {
            name@
        } else {
            resolution::linker_name_or(nodes_view(nodes@), k as int, name@)
        },
{
    if contains_text(bound, name) {
        name.clone()
    } else {
        linker_name_or(nodes, k, name)
    }
}

fn rewrite_expr(nodes: &Vec<Node>, k: usize, bound: &Vec<String>, e: &Expr) -> (r: Expr)
    requires
        k < nodes.len(),
        ordered(nodes_view(nodes@)),
    ensures
        r@ == resolution::mapped_expr(nodes_view(nodes@), k as int, texts(bound@), e@),
    decreases e,
{
    match e {
        Expr::Identifier { name, span } => Expr::Identifier {
            name: map_name(nodes, k, bound, name),
            span: *span,
        },
        Expr::StructLiteral { name, fields, span } => Expr::StructLiteral {
            name: map_type_name(nodes, k, name),
            fields: rewrite_inits(nodes, k, bound, fields),
            span: *span,
        },
        Expr::Field { base, name, span } => {
            let ghost inner = base@;
            match &**base {
                Expr::Identifier { name: alias, .. } => {
                    assert(inner matches ExprView::Identifier { name: written, .. } && written
                        == alias@);
                    if target_of(nodes, k, alias).is_some() {
                        return Expr::Identifier {
                            name: map_member(nodes, k, alias, name),
                            span: *span,
                        };
                    }
                },
                _ => {
                    assert(!(inner is Identifier));
                },
            }
            Expr::Field {
                base: Box::new(rewrite_expr(nodes, k, bound, base)),
                name: name.clone(),
                span: *span,
            }
        },
        Expr::Index { base, index, span } => Expr::Index {
            base: Box::new(rewrite_expr(nodes, k, bound, base)),
            index: Box::new(rewrite_expr(nodes, k, bound, index)),
            span: *span,
        },
        Expr::UncheckedIndex { base, index, span } => Expr::UncheckedIndex {
            base: Box::new(rewrite_expr(nodes, k, bound, base)),
            index: Box::new(rewrite_expr(nodes, k, bound, index)),
            span: *span,
        },
        Expr::Unary { operator, operand, span } => Expr::Unary {
            operator: *operator,
            operand: Box::new(rewrite_expr(nodes, k, bound, operand)),
            span: *span,
        },
        Expr::Binary { left, operator, right, span } => Expr::Binary {
            left: Box::new(rewrite_expr(nodes, k, bound, left)),
            operator: *operator,
            right: Box::new(rewrite_expr(nodes, k, bound, right)),
            span: *span,
        },
        Expr::Call { callee, arguments, span } => Expr::Call {
            callee: Box::new(rewrite_expr(nodes, k, bound, callee)),
            arguments: rewrite_exprs(nodes, k, bound, arguments),
            span: *span,
        },
        Expr::Propagate { expression, span } => Expr::Propagate {
            expression: Box::new(rewrite_expr(nodes, k, bound, expression)),
            span: *span,
        },
        Expr::Comptime { expression, span } => Expr::Comptime {
            expression: Box::new(rewrite_expr(nodes, k, bound, expression)),
            span: *span,
        },
        Expr::ArrayLiteral { ty, elements, span } => Expr::ArrayLiteral {
            ty: map_type(nodes, k, ty),
            elements: rewrite_exprs(nodes, k, bound, elements),
            span: *span,
        },
        Expr::SizeOf { ty, span } => Expr::SizeOf { ty: map_type(nodes, k, ty), span: *span },
        Expr::AlignOf { ty, span } => Expr::AlignOf { ty: map_type(nodes, k, ty), span: *span },
        Expr::OffsetOf { ty, field, span } => Expr::OffsetOf {
            ty: map_type(nodes, k, ty),
            field: field.clone(),
            span: *span,
        },
        Expr::Integer { .. } => e.clone(),
        Expr::Float { .. } => e.clone(),
        Expr::String { .. } => e.clone(),
        Expr::Bool { .. } => e.clone(),
        Expr::Null { .. } => e.clone(),
    }
}

fn rewrite_exprs(nodes: &Vec<Node>, k: usize, bound: &Vec<String>, es: &Vec<Expr>) -> (r: Vec<Expr>)
    requires
        k < nodes.len(),
        ordered(nodes_view(nodes@)),
    ensures
        exprs_view(r@) == resolution::mapped_exprs(
            nodes_view(nodes@),
            k as int,
            texts(bound@),
            exprs_view(es@),
        ),
    decreases es,
{
    let ghost all = exprs_view(es@);
    let mut out: Vec<Expr> = Vec::new();
    for i in 0..es.len()
        invariant
            k < nodes.len(),
            ordered(nodes_view(nodes@)),
            all == exprs_view(es@),
            out.len() == i,
            forall|j: int|
                0 <= j < i ==> (#[trigger] out@[j])@ == resolution::mapped_expr(
                    nodes_view(nodes@),
                    k as int,
                    texts(bound@),
                    all[j],
                ),
    {
        assert(all[i as int] == es@[i as int]@);
        out.push(rewrite_expr(nodes, k, bound, &es[i]));
    }
    assert(exprs_view(out@) =~= resolution::mapped_exprs(
        nodes_view(nodes@),
        k as int,
        texts(bound@),
        all,
    ));
    out
}

fn rewrite_inits(nodes: &Vec<Node>, k: usize, bound: &Vec<String>, inits: &Vec<StructInit>) -> (r:
    Vec<StructInit>)
    requires
        k < nodes.len(),
        ordered(nodes_view(nodes@)),
    ensures
        inits_view(r@) == resolution::mapped_inits(
            nodes_view(nodes@),
            k as int,
            texts(bound@),
            inits_view(inits@),
        ),
    decreases inits,
{
    let ghost all = inits_view(inits@);
    let mut out: Vec<StructInit> = Vec::new();
    for i in 0..inits.len()
        invariant
            k < nodes.len(),
            ordered(nodes_view(nodes@)),
            all == inits_view(inits@),
            out.len() == i,
            forall|j: int|
                0 <= j < i ==> (#[trigger] out@[j])@ == resolution::mapped_inits(
                    nodes_view(nodes@),
                    k as int,
                    texts(bound@),
                    all,
                )[j],
    {
        assert(all[i as int] == inits@[i as int]@);
        let value: Expr = rewrite_expr(nodes, k, bound, &inits[i].value);
        out.push(StructInit { name: inits[i].name.clone(), value, span: inits[i].span });
    }
    assert(inits_view(out@) =~= resolution::mapped_inits(
        nodes_view(nodes@),
        k as int,
        texts(bound@),
        all,
    ));
    out
}

fn rewrite_block(nodes: &Vec<Node>, k: usize, parent: &Vec<String>, b: &Block) -> (r: Block)
    requires
        k < nodes.len(),
        ordered(nodes_view(nodes@)),
    ensures
        r@ == resolution::mapped_block(nodes_view(nodes@), k as int, texts(parent@), b@),
    decreases b,
{
    let ghost all = stmts_view(b.statements@);
    let mut bound: Vec<String> = clone_texts(parent);
    let mut out: Vec<Stmt> = Vec::new();
    assert(stmts_view(out@) =~= Seq::empty());
    for i in 0..b.statements.len()
        invariant
            k < nodes.len(),
            ordered(nodes_view(nodes@)),
            all == stmts_view(b.statements@),
            resolution::mapped_statements(
                nodes_view(nodes@),
                k as int,
                texts(parent@),
                all,
                0,
                Seq::empty(),
            ) == resolution::mapped_statements(
                nodes_view(nodes@),
                k as int,
                texts(bound@),
                all,
                i as int,
                stmts_view(out@),
            ),
    {
        assert(all[i as int] == b.statements@[i as int]@);
        let ghost names = texts(bound@);
        out.push(rewrite_stmt(nodes, k, &bound, &b.statements[i]));
        match &b.statements[i] {
            Stmt::Variable(v) => {
                bound.push(v.name.clone());
                assert(texts(bound@) =~= names.push(v.name@));
            },
            _ => {},
        }
        assert(texts(bound@) == resolution::bound_after(names, all[i as int]));
    }
    Block { statements: out, span: b.span }
}

fn rewrite_stmt(nodes: &Vec<Node>, k: usize, bound: &Vec<String>, s: &Stmt) -> (r: Stmt)
    requires
        k < nodes.len(),
        ordered(nodes_view(nodes@)),
    ensures
        r@ == resolution::mapped_statement(nodes_view(nodes@), k as int, texts(bound@), s@),
    decreases s,
{
    match s {
        Stmt::Variable(v) => {
            let value: Expr = rewrite_expr(nodes, k, bound, &v.value);
            let declared: VariableDecl = VariableDecl {
                name: v.name.clone(),
                kind: v.kind,
                ty: map_option(nodes, k, &v.ty),
                value,
                span: v.span,
                exported: false,
            };
            Stmt::Variable(declared)
        },
        Stmt::If { condition, then_branch, else_branch, span } => {
            let other: Option<Block> = match else_branch {
                Some(branch) => Some(rewrite_block(nodes, k, bound, branch)),
                None => None,
            };
            Stmt::If {
                condition: rewrite_expr(nodes, k, bound, condition),
                then_branch: rewrite_block(nodes, k, bound, then_branch),
                else_branch: other,
                span: *span,
            }
        },
        Stmt::While { condition, body, span } => Stmt::While {
            condition: rewrite_expr(nodes, k, bound, condition),
            body: rewrite_block(nodes, k, bound, body),
            span: *span,
        },
        Stmt::Break { span } => Stmt::Break { span: *span },
        Stmt::Continue { span } => Stmt::Continue { span: *span },
        Stmt::Defer { call, span } => Stmt::Defer {
            call: rewrite_expr(nodes, k, bound, call),
            span: *span,
        },
        Stmt::Return { value, span } => {
            let given: Option<Expr> = match value {
                Some(e) => Some(rewrite_expr(nodes, k, bound, e)),
                None => None,
            };
            Stmt::Return { value: given, span: *span }
        },
        Stmt::Assignment { target, value, span } => Stmt::Assignment {
            target: rewrite_expr(nodes, k, bound, target),
            value: rewrite_expr(nodes, k, bound, value),
            span: *span,
        },
        Stmt::Expr { expression, span } => Stmt::Expr {
            expression: rewrite_expr(nodes, k, bound, expression),
            span: *span,
        },
    }
}

fn rewrite_fields(nodes: &Vec<Node>, k: usize, fields: &Vec<StructField>) -> (r: Vec<StructField>)
    requires
        k < nodes.len(),
        ordered(nodes_view(nodes@)),
    ensures
        fields_view(r@) == resolution::mapped_fields(
            nodes_view(nodes@),
            k as int,
            fields_view(fields@),
        ),
{
    let ghost all = fields_view(fields@);
    let mut out: Vec<StructField> = Vec::new();
    for i in 0..fields.len()
        invariant
            k < nodes.len(),
            ordered(nodes_view(nodes@)),
            all == fields_view(fields@),
            out.len() == i,
            forall|j: int|
                0 <= j < i ==> (#[trigger] out@[j])@ == resolution::mapped_fields(
                    nodes_view(nodes@),
                    k as int,
                    all,
                )[j],
    {
        assert(all[i as int] == fields@[i as int]@);
        let ty: Type = map_type(nodes, k, &fields[i].ty);
        out.push(StructField { name: fields[i].name.clone(), ty, span: fields[i].span });
    }
    assert(fields_view(out@) =~= resolution::mapped_fields(nodes_view(nodes@), k as int, all));
    out
}

fn rewrite_parameters(nodes: &Vec<Node>, k: usize, params: &Vec<Parameter>) -> (r: Vec<Parameter>)
    requires
        k < nodes.len(),
        ordered(nodes_view(nodes@)),
    ensures
        parameters_view(r@) == resolution::mapped_parameters(
            nodes_view(nodes@),
            k as int,
            parameters_view(params@),
        ),
{
    let ghost all = parameters_view(params@);
    let mut out: Vec<Parameter> = Vec::new();
    for i in 0..params.len()
        invariant
            k < nodes.len(),
            ordered(nodes_view(nodes@)),
            all == parameters_view(params@),
            out.len() == i,
            forall|j: int|
                0 <= j < i ==> (#[trigger] out@[j])@ == resolution::mapped_parameters(
                    nodes_view(nodes@),
                    k as int,
                    all,
                )[j],
    {
        assert(all[i as int] == params@[i as int]@);
        let ty: Type = map_type(nodes, k, &params[i].ty);
        out.push(Parameter { name: params[i].name.clone(), ty, span: params[i].span });
    }
    assert(parameters_view(out@) =~= resolution::mapped_parameters(
        nodes_view(nodes@),
        k as int,
        all,
    ));
    out
}

fn optional_clone(text: &Option<String>) -> (r: Option<String>)
    ensures
        optional(r) == optional(*text),
{
    match text {
        Some(text) => Some(text.clone()),
        None => None,
    }
}

fn parameter_names(params: &Vec<Parameter>) -> (r: Vec<String>)
    ensures
        texts(r@) == resolution::parameter_names(parameters_view(params@)),
{
    let mut out: Vec<String> = Vec::new();
    for i in 0..params.len()
        invariant
            out.len() == i,
            forall|j: int| 0 <= j < i ==> (#[trigger] out@[j])@ == params@[j].name@,
    {
        out.push(params[i].name.clone());
    }
    assert(texts(out@) =~= resolution::parameter_names(parameters_view(params@)));
    out
}

/// A declaration of module `k` under the names of the program.
pub fn rewrite_decl(nodes: &Vec<Node>, k: usize, d: &Decl) -> (r: Decl)
    requires
        k < nodes.len(),
        ordered(nodes_view(nodes@)),
    ensures
        r@ == resolution::mapped_declaration(nodes_view(nodes@), k as int, d@),
{
    let none: Vec<String> = Vec::new();
    assert(texts(none@) =~= Seq::empty());
    match d {
        Decl::Struct(s) => {
            let out: StructDecl = StructDecl {
                name: linker_name_or(nodes, k, &s.name),
                generic_params: generics_clone(&s.generic_params),
                fields: rewrite_fields(nodes, k, &s.fields),
                span: s.span,
                exported: s.exported,
            };
            Decl::Struct(out)
        },
        Decl::Variable(v) => {
            let out: VariableDecl = VariableDecl {
                name: linker_name_or(nodes, k, &v.name),
                kind: v.kind,
                ty: map_option(nodes, k, &v.ty),
                value: rewrite_expr(nodes, k, &none, &v.value),
                span: v.span,
                exported: v.exported,
            };
            Decl::Variable(out)
        },
        Decl::Function(f) => {
            let bound: Vec<String> = parameter_names(&f.params);
            let out: FunctionDecl = FunctionDecl {
                name: linker_name_or(nodes, k, &f.name),
                generic_params: generics_clone(&f.generic_params),
                params: rewrite_parameters(nodes, k, &f.params),
                return_type: map_type(nodes, k, &f.return_type),
                body: rewrite_block(nodes, k, &bound, &f.body),
                span: f.span,
                is_extern: f.is_extern,
                abi: optional_clone(&f.abi),
                link_name: optional_clone(&f.link_name),
                exported: f.exported,
            };
            Decl::Function(out)
        },
        Decl::Comptime { expression, span } => Decl::Comptime {
            expression: rewrite_expr(nodes, k, &none, expression),
            span: *span,
        },
    }
}

/// The declarations of all modules, one module after the other.
pub fn rewrite_modules(nodes: &Vec<Node>) -> (r: Vec<Decl>)
    requires
        ordered(nodes_view(nodes@)),
    ensures
        decls_view(r@) == resolution::mapped_modules(nodes_view(nodes@), nodes@.len() as int),
{
    let ghost all = nodes_view(nodes@);
    let mut out: Vec<Decl> = Vec::new();
    assert(decls_view(out@) =~= Seq::empty());
    for k in 0..nodes.len()
        invariant
            ordered(all),
            all == nodes_view(nodes@),
            decls_view(out@) == resolution::mapped_modules(all, k as int),
    {
        let decls: &Vec<Decl> = &nodes[k].program.declarations;
        assert(all[k as int] == nodes@[k as int]@);
        let ghost before = decls_view(out@);
        let ghost mine = resolution::mapped_module(all, k as int);
        assert(before + mine.take(0) =~= before);
        for i in 0..decls.len()
            invariant
                k < nodes.len(),
                ordered(all),
                all == nodes_view(nodes@),
                all[k as int].program.declarations == decls_view(decls@),
                mine == resolution::mapped_module(all, k as int),
                decls_view(out@) == before + mine.take(i as int),
        {
            assert(decls_view(decls@)[i as int] == decls@[i as int]@);
            out.push(rewrite_decl(nodes, k, &decls[i]));
            assert(mine.take(i + 1) =~= mine.take(i as int).push(mine[i as int]));
            assert(before + mine.take(i + 1) =~= (before + mine.take(i as int)).push(
                mine[i as int],
            ));
        }
        assert(mine.take(mine.len() as int) =~= mine);
    }
    out
}

} // verus!
