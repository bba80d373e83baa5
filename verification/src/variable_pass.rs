//! The stack/variable resolver: walks the AST assigning each declared
//! variable the next available frame offset (a running total incremented by
//! the variable's byte size) and rewrites every later reference to that
//! name into a direct offset reference. Each function body is a scope of
//! its own with a fresh offset counter. Declaring a name twice in one scope
//! is reported, not fatal: the later declaration shadows the earlier one.
//!
//! This pass is the in-crate alternative to delegating stack-frame layout
//! to the external backend; it works on its own statement shape, in which a
//! declaration carries its assigned offset.

use vstd::prelude::*;

use crate::parse::{spec_bytes, Type};
use crate::text::str_eq;

verus! {

/// A statement node of the resolver's shape: a declaration carries the
/// frame offset the pass assigns to it, and a name read that resolved is
/// rewritten into a `VariableReference` holding its offset.
#[derive(Debug, PartialEq, Eq)]
pub enum StackNode {
    FunctionDeclaration(Type, String, Vec<StackNode>),
    VariableDeclaration(Type, String, Box<StackNode>, u32),
    StringLiteral(String),
    VariableReference(u32),
    Return(Box<StackNode>),
}

/// The model of a resolver statement node.
pub enum SpecStackNode {
    FunctionDeclaration(Type, Seq<char>, Seq<SpecStackNode>),
    VariableDeclaration(Type, Seq<char>, Box<SpecStackNode>, u32),
    StringLiteral(Seq<char>),
    VariableReference(u32),
    Return(Box<SpecStackNode>),
}

pub open spec fn view_stack_node(n: StackNode) -> SpecStackNode
    decreases n, 0int,
{
    match n {
        StackNode::FunctionDeclaration(ty, name, inner) => SpecStackNode::FunctionDeclaration(
            ty,
            name@,
            view_stack_nodes(inner@),
        ),
        StackNode::VariableDeclaration(ty, name, inner, off) => {
            SpecStackNode::VariableDeclaration(ty, name@, Box::new(view_stack_node(*inner)), off)
        },
        StackNode::StringLiteral(name) => SpecStackNode::StringLiteral(name@),
        StackNode::VariableReference(off) => SpecStackNode::VariableReference(off),
        StackNode::Return(inner) => SpecStackNode::Return(Box::new(view_stack_node(*inner))),
    }
}

pub open spec fn view_stack_nodes(l: Seq<StackNode>) -> Seq<SpecStackNode>
    decreases l, l.len() + 1,
{
    view_stack_nodes_from(l, 0)
}

pub open spec fn view_stack_nodes_from(l: Seq<StackNode>, i: int) -> Seq<SpecStackNode>
    decreases l, l.len() - i,
{
    if 0 <= i < l.len() {
        seq![view_stack_node(l[i])] + view_stack_nodes_from(l, i + 1)
    } else {
        Seq::empty()
    }
}

pub proof fn lemma_view_stack_nodes_from(l: Seq<StackNode>, i: int)
    requires
        0 <= i <= l.len(),
    ensures
        view_stack_nodes_from(l, i).len() == l.len() - i,
        forall|k: int|
            i <= k < l.len() ==> view_stack_nodes_from(l, i)[k - i] == view_stack_node(
                #[trigger] l[k],
            ),
    decreases l.len() - i,
{
    if i < l.len() {
        lemma_view_stack_nodes_from(l, i + 1);
    }
}

/// The pointwise reading of `view_stack_nodes`.
pub proof fn lemma_view_stack_nodes(l: Seq<StackNode>)
    ensures
        view_stack_nodes(l) == Seq::new(l.len(), |i: int| view_stack_node(l[i])),
{
    lemma_view_stack_nodes_from(l, 0);
    assert(view_stack_nodes(l) =~= Seq::new(l.len(), |i: int| view_stack_node(l[i])));
}

impl View for StackNode {
    type V = SpecStackNode;

    open spec fn view(&self) -> SpecStackNode {
        view_stack_node(*self)
    }
}

/// A fault of the resolver.
#[derive(Debug, Clone, Copy, PartialEq, Eq)]
pub enum ResolveError {
    /// The running frame offset would exceed the 32-bit range.
    FrameTooLarge,
}

/// The scope table as a mathematical map from names to offsets.
pub open spec fn env_view(v: Seq<(String, u32)>) -> Map<Seq<char>, u32>
    decreases v.len(),
{
    if v.len() == 0 {
        Map::empty()
    } else {
        env_view(v.drop_last()).insert(v.last().0@, v.last().1)
    }
}

/// Looks a name up among the entries of `env` below index `j`, later
/// entries shadowing earlier ones.
fn lookup_upto(env: &Vec<(String, u32)>, j: usize, name: &str) -> (r: Option<u32>)
    requires
        j <= env@.len(),
    ensures
        ({
            let m = env_view(env@.subrange(0, j as int));
            match r {
                Option::Some(o) => m.contains_key(name@) && m[name@] == o,
                Option::None => !m.contains_key(name@),
            }
        }),
    decreases j,
{
    if j == 0 {
        proof {
            assert(env@.subrange(0, 0) =~= Seq::<(String, u32)>::empty());
        }
        return Option::None;
    }
    let ghost pre = env@.subrange(0, j as int);
    proof {
        assert(pre.drop_last() =~= env@.subrange(0, j - 1));
        assert(pre.last() == env@[j - 1]);
    }
    if str_eq(env[j - 1].0.as_str(), name) {
        Option::Some(env[j - 1].1)
    } else {
        lookup_upto(env, j - 1, name)
    }
}

/// Looks a name up in the scope table.
fn lookup(env: &Vec<(String, u32)>, name: &str) -> (r: Option<u32>)
    ensures
        ({
            let m = env_view(env@);
            match r {
                Option::Some(o) => m.contains_key(name@) && m[name@] == o,
                Option::None => !m.contains_key(name@),
            }
        }),
{
    let j = env.len();
    proof {
        assert(env@.subrange(0, j as int) =~= env@);
    }
    lookup_upto(env, j, name)
}

/// The model of resolving one node from a running offset and scope table:
/// the resolved node, the new offset, the new table, and the duplicate
/// names reported along the way.
pub open spec fn spec_resolve_node(n: SpecStackNode, sp: u32, env: Map<Seq<char>, u32>) -> Result<
    (SpecStackNode, u32, Map<Seq<char>, u32>, Seq<Seq<char>>),
    ResolveError,
>
    decreases n, 1int,
{
    match n {
        SpecStackNode::FunctionDeclaration(ty, name, inner) => {
            match spec_resolve_list(inner, 0, 0, Map::empty()) {
                Ok(q) => Ok(
                    (SpecStackNode::FunctionDeclaration(ty, name, q.0), sp, env, q.3),
                ),
                Err(e) => Err(e),
            }
        },
        SpecStackNode::VariableDeclaration(ty, name, inner, _off) => {
            match spec_resolve_node(*inner, sp, env) {
                Ok(q) => {
                    if q.1 + spec_bytes(ty) > 0xffff_ffffu32 {
                        Err(ResolveError::FrameTooLarge)
                    } else {
                        let nsp = (q.1 + spec_bytes(ty)) as u32;
                        let dups = if q.2.contains_key(name) {
                            q.3 + seq![name]
                        } else {
                            q.3
                        };
                        Ok(
                            (
                                SpecStackNode::VariableDeclaration(
                                    ty,
                                    name,
                                    Box::new(q.0),
                                    nsp,
                                ),
                                nsp,
                                q.2.insert(name, nsp),
                                dups,
                            ),
                        )
                    }
                },
                Err(e) => Err(e),
            }
        },
        SpecStackNode::StringLiteral(name) => {
            if env.contains_key(name) {
                Ok((SpecStackNode::VariableReference(env[name]), sp, env, Seq::empty()))
            } else {
                Ok((SpecStackNode::StringLiteral(name), sp, env, Seq::empty()))
            }
        },
        SpecStackNode::VariableReference(off) => Ok(
            (SpecStackNode::VariableReference(off), sp, env, Seq::empty()),
        ),
        SpecStackNode::Return(inner) => {
            match spec_resolve_node(*inner, sp, env) {
                Ok(q) => Ok((SpecStackNode::Return(Box::new(q.0)), q.1, q.2, q.3)),
                Err(e) => Err(e),
            }
        },
    }
}

/// The model of resolving a node list in order, threading the offset and
/// the scope table left to right.
pub open spec fn spec_resolve_list(
    l: Seq<SpecStackNode>,
    i: int,
    sp: u32,
    env: Map<Seq<char>, u32>,
) -> Result<(Seq<SpecStackNode>, u32, Map<Seq<char>, u32>, Seq<Seq<char>>), ResolveError>
    decreases l, l.len() - i,
{
    if 0 <= i < l.len() {
        match spec_resolve_node(l[i], sp, env) {
            Ok(q) => {
                match spec_resolve_list(l, i + 1, q.1, q.2) {
                    Ok(qr) => Ok((seq![q.0] + qr.0, qr.1, qr.2, q.3 + qr.3)),
                    Err(e) => Err(e),
                }
            },
            Err(e) => Err(e),
        }
    } else {
        Ok((Seq::empty(), sp, env, Seq::empty()))
    }
}

/// The model of the whole pass: one fresh scope over the top-level list.
pub open spec fn spec_variable_pass(l: Seq<SpecStackNode>) -> Result<
    (Seq<SpecStackNode>, u32, Map<Seq<char>, u32>, Seq<Seq<char>>),
    ResolveError,
> {
    spec_resolve_list(l, 0, 0, Map::empty())
}

/// The names of a sequence of reported duplicates, seen at the model level.
pub open spec fn view_names(l: Seq<String>) -> Seq<Seq<char>> {
    Seq::new(l.len(), |i: int| l[i]@)
}

/// Resolves one node, returning the resolved node, the new offset, the new
/// scope table and the duplicate reports.
fn resolve_node(node: StackNode, sp: u32, env: Vec<(String, u32)>, dups: Vec<String>) -> (r:
    Result<(StackNode, u32, Vec<(String, u32)>, Vec<String>), ResolveError>)
    ensures
        ({
            let s = spec_resolve_node(view_stack_node(node), sp, env_view(env@));
            match r {
                Ok(p) => {
                    &&& s matches Ok(q)
                    &&& q.0 == view_stack_node(p.0)
                    &&& q.1 == p.1
                    &&& q.2 == env_view(p.2@)
                    &&& view_names(p.3@) == view_names(dups@) + q.3
                },
                Err(e) => s matches Err(e2) && e2 == e,
            }
        }),
    decreases node, 1int,
{
    match node {
        StackNode::FunctionDeclaration(ty, name, inner) => {
            proof {
                assert(env_view(Seq::<(String, u32)>::empty()) =~= Map::<Seq<char>, u32>::empty());
            }
            match resolve_list(inner, 0, Vec::new(), dups) {
                Ok(p) => {
                    let (inner2, _sp2, _env2, dups2) = p;
                    let ghost innerv = inner2@;
                    let nd = StackNode::FunctionDeclaration(ty, name, inner2);
                    proof {
                        assert(view_stack_node(nd) == SpecStackNode::FunctionDeclaration(
                            nd->FunctionDeclaration_0,
                            name@,
                            view_stack_nodes(innerv),
                        ));
                    }
                    Ok((nd, sp, env, dups2))
                },
                Err(e) => Err(e),
            }
        },
        StackNode::VariableDeclaration(ty, name, inner, _off) => {
            let ghost ty0 = ty;
            match resolve_node(*inner, sp, env, dups) {
                Ok(p) => {
                    let (inner2, sp2, env2, mut dups2) = p;
                    let ghost env2v = env2@;
                    let ghost dups_in = dups2@;
                    let b = ty.bytes();
                    if sp2 as u64 + b as u64 > 0xffff_ffffu64 {
                        return Err(ResolveError::FrameTooLarge);
                    }
                    let nsp = sp2 + b;
                    let dup = match lookup(&env2, name.as_str()) {
                        Option::Some(_) => true,
                        Option::None => false,
                    };
                    let mut env3 = env2;
                    env3.push((name.clone(), nsp));
                    if dup {
                        dups2.push(name.clone());
                    }
                    let ghost innerv = view_stack_node(inner2);
                    let nd = StackNode::VariableDeclaration(ty, name, Box::new(inner2), nsp);
                    proof {
                        assert(view_stack_node(nd) == SpecStackNode::VariableDeclaration(
                            ty0,
                            nd->VariableDeclaration_1@,
                            Box::new(innerv),
                            nsp,
                        ));
                        assert(env_view(env3@) =~= env_view(env3@.drop_last()).insert(
                            env3@.last().0@,
                            env3@.last().1,
                        ));
                        assert(env3@.drop_last() =~= env2v);
                        if dup {
                            assert(view_names(dups2@) =~= view_names(dups_in) + seq![
                                nd->VariableDeclaration_1@,
                            ]);
                        }
                    }
                    Ok((nd, nsp, env3, dups2))
                },
                Err(e) => Err(e),
            }
        },
        StackNode::StringLiteral(name) => {
            match lookup(&env, name.as_str()) {
                Option::Some(off) => {
                    proof {
                        assert(view_names(dups@) + Seq::<Seq<char>>::empty() =~= view_names(
                            dups@,
                        ));
                    }
                    Ok((StackNode::VariableReference(off), sp, env, dups))
                },
                Option::None => {
                    proof {
                        assert(view_names(dups@) + Seq::<Seq<char>>::empty() =~= view_names(
                            dups@,
                        ));
                    }
                    Ok((StackNode::StringLiteral(name), sp, env, dups))
                },
            }
        },
        StackNode::VariableReference(off) => {
            proof {
                assert(view_names(dups@) + Seq::<Seq<char>>::empty() =~= view_names(dups@));
            }
            Ok((StackNode::VariableReference(off), sp, env, dups))
        },
        StackNode::Return(inner) => {
            match resolve_node(*inner, sp, env, dups) {
                Ok(p) => {
                    let (inner2, sp2, env2, dups2) = p;
                    let ghost innerv = view_stack_node(inner2);
                    let nd = StackNode::Return(Box::new(inner2));
                    proof {
                        assert(view_stack_node(nd) == SpecStackNode::Return(Box::new(innerv)));
                    }
                    Ok((nd, sp2, env2, dups2))
                },
                Err(e) => Err(e),
            }
        },
    }
}

/// Resolves a node list in order, threading the offset and scope table.
fn resolve_list(l: Vec<StackNode>, sp: u32, env: Vec<(String, u32)>, dups: Vec<String>) -> (r:
    Result<(Vec<StackNode>, u32, Vec<(String, u32)>, Vec<String>), ResolveError>)
    ensures
        ({
            let s = spec_resolve_list(view_stack_nodes(l@), 0, sp, env_view(env@));
            match r {
                Ok(p) => {
                    &&& s matches Ok(q)
                    &&& q.0 == view_stack_nodes(p.0@)
                    &&& q.1 == p.1
                    &&& q.2 == env_view(p.2@)
                    &&& view_names(p.3@) == view_names(dups@) + q.3
                },
                Err(e) => s matches Err(e2) && e2 == e,
            }
        }),
    decreases l@, 2int,
{
    let ghost l0 = l@;
    proof {
        lemma_view_stack_nodes(l0);
    }
    if l.len() == 0 {
        proof {
            assert(view_stack_nodes(l0) =~= Seq::<SpecStackNode>::empty());
            assert(view_names(dups@) + Seq::<Seq<char>>::empty() =~= view_names(dups@));
        }
        return Ok((l, sp, env, dups));
    }
    let mut l_rest = l;
    let head = l_rest.remove(0);
    proof {
        assert(decreases_to!(l0 => l0[0]));
        assert(l_rest@ =~= l0.subrange(1, l0.len() as int));
        assert(decreases_to!(l0 => l0.subrange(1, l0.len() as int)));
    }
    match resolve_node(head, sp, env, dups) {
        Ok(p) => {
            let (node2, sp2, env2, dups2) = p;
            let ghost env2v = env2@;
            let ghost dups2v = dups2@;
            match resolve_list(l_rest, sp2, env2, dups2) {
                Ok(pr) => {
                    let (rest2, sp3, env3, dups3) = pr;
                    let ghost dups3v = dups3@;
                    let mut out: Vec<StackNode> = Vec::new();
                    let ghost nodev = view_stack_node(node2);
                    out.push(node2);
                    let mut rest_v = rest2;
                    let ghost rest0 = rest_v@;
                    out.append(&mut rest_v);
                    proof {
                        lemma_view_stack_nodes(out@);
                        lemma_view_stack_nodes(rest0);
                        lemma_view_stack_nodes(l_rest@);
                        assert(view_stack_nodes(out@) =~= seq![view_stack_node(out@[0])]
                            + view_stack_nodes(rest0));
                        assert(view_stack_nodes(l_rest@) =~= view_stack_nodes(l0).subrange(
                            1,
                            l0.len() as int,
                        ));
                        assert(spec_resolve_list(
                            view_stack_nodes(l_rest@),
                            0,
                            sp2,
                            env_view(env2v),
                        ) == spec_resolve_list(view_stack_nodes(l0), 1, sp2, env_view(env2v)))
                            by {
                            assert(view_stack_nodes(l_rest@).subrange(
                                0,
                                view_stack_nodes(l_rest@).len() as int,
                            ) =~= view_stack_nodes(l_rest@));
                            lemma_resolve_list_align(
                                view_stack_nodes(l_rest@),
                                0,
                                view_stack_nodes(l0),
                                1,
                                sp2,
                                env_view(env2v),
                            );
                        }
                        assert(view_names(dups3v) =~= view_names(dups@) + (spec_resolve_node(
                            view_stack_node(l0[0]),
                            sp,
                            env_view(env@),
                        )->Ok_0.3 + spec_resolve_list(
                            view_stack_nodes(l0),
                            1,
                            sp2,
                            env_view(env2v),
                        )->Ok_0.3));
                    }
                    Ok((out, sp3, env3, dups3))
                },
                Err(e) => {
                    proof {
                        lemma_view_stack_nodes(l_rest@);
                        assert(view_stack_nodes(l_rest@) =~= view_stack_nodes(l0).subrange(
                            1,
                            l0.len() as int,
                        ));
                        assert(view_stack_nodes(l_rest@).subrange(
                            0,
                            view_stack_nodes(l_rest@).len() as int,
                        ) =~= view_stack_nodes(l_rest@));
                        lemma_resolve_list_align(
                            view_stack_nodes(l_rest@),
                            0,
                            view_stack_nodes(l0),
                            1,
                            sp2,
                            env_view(env2v),
                        );
                    }
                    Err(e)
                },
            }
        },
        Err(e) => Err(e),
    }
}

/// Resolving equal suffixes from their starting indexes gives equal
/// results.
proof fn lemma_resolve_list_align(
    a: Seq<SpecStackNode>,
    i: int,
    b: Seq<SpecStackNode>,
    j: int,
    sp: u32,
    env: Map<Seq<char>, u32>,
)
    requires
        0 <= i <= a.len(),
        0 <= j <= b.len(),
        a.subrange(i, a.len() as int) == b.subrange(j, b.len() as int),
    ensures
        spec_resolve_list(a, i, sp, env) == spec_resolve_list(b, j, sp, env),
    decreases a.len() - i,
{
    let sa = a.subrange(i, a.len() as int);
    let sb = b.subrange(j, b.len() as int);
    if i < a.len() {
        assert(sa.len() == sb.len());
        assert(a[i] == sa[0]);
        assert(b[j] == sb[0]);
        match spec_resolve_node(a[i], sp, env) {
            Ok(q) => {
                assert(forall|k: int|
                    0 <= k < a.len() - i - 1 ==> #[trigger] a.subrange(i + 1, a.len() as int)[k]
                        == sa[k + 1] && #[trigger] b.subrange(j + 1, b.len() as int)[k] == sb[k
                        + 1]);
                assert(a.subrange(i + 1, a.len() as int) =~= b.subrange(j + 1, b.len() as int));
                lemma_resolve_list_align(a, i + 1, b, j + 1, q.1, q.2);
            },
            Err(_) => {},
        }
    } else {
        assert(sb.len() == 0);
    }
}

/// Whether a node is a variable declaration whose initializer is a leaf
/// (a name read or an already-resolved reference), the shape a sequence of
/// plain declarations in one scope has.
pub open spec fn is_plain_decl(n: SpecStackNode) -> bool {
    match n {
        SpecStackNode::VariableDeclaration(_, _, inner, _) => match *inner {
            SpecStackNode::StringLiteral(_) => true,
            SpecStackNode::VariableReference(_) => true,
            _ => false,
        },
        _ => false,
    }
}

/// The declared type of a declaration node.
pub open spec fn decl_ty(n: SpecStackNode) -> Type {
    match n {
        SpecStackNode::VariableDeclaration(ty, _, _, _) => ty,
        _ => Type::VOID,
    }
}

/// The offset a declaration node carries.
pub open spec fn decl_offset(n: SpecStackNode) -> u32 {
    match n {
        SpecStackNode::VariableDeclaration(_, _, _, off) => off,
        _ => 0,
    }
}

/// The byte sizes of the declarations in `[i, j)`, summed.
pub open spec fn decl_bytes_sum(l: Seq<SpecStackNode>, i: int, j: int) -> int
    decreases j - i,
{
    if i < j {
        spec_bytes(decl_ty(l[i])) + decl_bytes_sum(l, i + 1, j)
    } else {
        0
    }
}

proof fn lemma_decl_bytes_sum_snoc(l: Seq<SpecStackNode>, i: int, j: int)
    requires
        i <= j < l.len(),
    ensures
        decl_bytes_sum(l, i, j + 1) == decl_bytes_sum(l, i, j) + spec_bytes(decl_ty(l[j])),
    decreases j - i,
{
    if i < j {
        lemma_decl_bytes_sum_snoc(l, i + 1, j);
    } else {
        assert(decl_bytes_sum(l, j + 1, j + 1) == 0);
        assert(decl_bytes_sum(l, i, j) == 0);
    }
}

proof fn lemma_decl_bytes_sum_nonneg(l: Seq<SpecStackNode>, i: int, j: int)
    ensures
        decl_bytes_sum(l, i, j) >= 0,
    decreases j - i,
{
    if i < j {
        lemma_decl_bytes_sum_nonneg(l, i + 1, j);
    }
}

/// Law: resolving a run of variable declarations in one scope assigns
/// them strictly increasing, non-overlapping offsets, each one the
/// previous running offset advanced by exactly that declaration's own
/// byte size: the offset of the `m`-th declaration of the run is the
/// starting offset plus the sizes of all declarations up to and including
/// it, so each declaration's storage `[offset - size, offset)` lies
/// strictly past the one before it. Offsets strictly increase wherever
/// the declared sizes are nonzero.
pub proof fn lemma_stack_offsets(l: Seq<SpecStackNode>, i: int, sp: u32, env: Map<Seq<char>, u32>)
    requires
        0 <= i <= l.len(),
        forall|k: int| i <= k < l.len() ==> is_plain_decl(#[trigger] l[k]),
        sp + decl_bytes_sum(l, i, l.len() as int) <= 0xffff_ffff,
    ensures
        spec_resolve_list(l, i, sp, env) matches Ok(q) && {
            &&& q.0.len() == l.len() - i
            &&& forall|m: int|
                0 <= m < q.0.len() ==> decl_offset(#[trigger] q.0[m]) == sp + decl_bytes_sum(
                    l,
                    i,
                    i + m + 1,
                )
            &&& forall|m: int|
                1 <= m < q.0.len() && spec_bytes(decl_ty(l[i + m])) > 0 ==> decl_offset(
                    #[trigger] q.0[m],
                ) > decl_offset(q.0[m - 1])
        },
    decreases l.len() - i,
{
    if i < l.len() {
        let n = l[i];
        let ty = decl_ty(n);
        let b = spec_bytes(ty);
        lemma_decl_bytes_sum_nonneg(l, i + 1, l.len() as int);
        assert(decl_bytes_sum(l, i, l.len() as int) == b + decl_bytes_sum(
            l,
            i + 1,
            l.len() as int,
        ));
        assert(is_plain_decl(l[i]));
        let inner = n->VariableDeclaration_2;
        assert(spec_resolve_node(*inner, sp, env) matches Ok(qq) && qq.1 == sp && qq.2 == env);
        let rn = spec_resolve_node(n, sp, env);
        assert(rn matches Ok(p) && p.1 == sp + b);
        let p = rn->Ok_0;
        let nsp = p.1;
        lemma_stack_offsets(l, i + 1, nsp, p.2);
        let q = spec_resolve_list(l, i, sp, env)->Ok_0;
        let qr = spec_resolve_list(l, i + 1, nsp, p.2)->Ok_0;
        assert(q.0 == seq![p.0] + qr.0);
        assert(decl_bytes_sum(l, i + 1, i + 1) == 0);
        assert(decl_bytes_sum(l, i, i + 1) == b);
        assert(decl_offset(q.0[0]) == sp + decl_bytes_sum(l, i, i + 1));
        assert forall|m: int| 0 <= m < q.0.len() implies decl_offset(#[trigger] q.0[m]) == sp
            + decl_bytes_sum(l, i, i + m + 1) by {
            if m > 0 {
                assert(q.0[m] == qr.0[m - 1]);
                assert(decl_offset(qr.0[m - 1]) == nsp + decl_bytes_sum(
                    l,
                    i + 1,
                    i + 1 + (m - 1) + 1,
                ));
                lemma_sum_head(l, i, i + m + 1);
            }
        }
        assert forall|m: int|
            1 <= m < q.0.len() && spec_bytes(decl_ty(l[i + m])) > 0 implies decl_offset(
            #[trigger] q.0[m],
        ) > decl_offset(q.0[m - 1]) by {
            lemma_decl_bytes_sum_snoc(l, i, i + m);
            lemma_decl_bytes_sum_nonneg(l, i, i + m);
        }
    }
}

proof fn lemma_sum_head(l: Seq<SpecStackNode>, i: int, j: int)
    requires
        i < j,
    ensures
        decl_bytes_sum(l, i, j) == spec_bytes(decl_ty(l[i])) + decl_bytes_sum(l, i + 1, j),
{
}

/// Runs the resolver over a top-level node list in one fresh scope,
/// handing back the resolved list and the duplicate-declaration reports.
pub fn variable_pass(ast: Vec<StackNode>) -> (r: Result<
    (Vec<StackNode>, Vec<String>),
    ResolveError,
>)
    ensures
        ({
            let s = spec_variable_pass(view_stack_nodes(ast@));
            match r {
                Ok(p) => {
                    &&& s matches Ok(q)
                    &&& q.0 == view_stack_nodes(p.0@)
                    &&& view_names(p.1@) == q.3
                },
                Err(e) => s matches Err(e2) && e2 == e,
            }
        }),
{
    proof {
        assert(env_view(Seq::<(String, u32)>::empty()) =~= Map::<Seq<char>, u32>::empty());
        assert(view_names(Seq::<String>::empty()) =~= Seq::<Seq<char>>::empty());
    }
    let ghost astv = ast@;
    match resolve_list(ast, 0, Vec::new(), Vec::new()) {
        Ok(p) => {
            let (nodes2, _sp2, _env2, dups2) = p;
            proof {
                assert(Seq::<Seq<char>>::empty() + spec_variable_pass(
                    view_stack_nodes(astv),
                )->Ok_0.3 =~= spec_variable_pass(view_stack_nodes(astv))->Ok_0.3);
            }
            Ok((nodes2, dups2))
        },
        Err(e) => Err(e),
    }
}

} // verus!
