//! The typed program representation that the compiler front end hands to the
//! analysis: definitions, function bodies as syntax trees, compiled call sites
//! and type descriptors, all as plain values.

use vstd::prelude::*;

verus! {

/// The crate number of the program under analysis.
pub const LOCAL_CRATE: u32 = 0;

/// Identifier of a definition: the crate that holds it and its index there.
#[derive(Clone, Copy, Debug, PartialEq, Eq, Structural)]
pub struct DefId {
    pub krate: u32,
    pub index: u32,
}

impl DefId {
    pub open spec fn spec_is_local(&self) -> bool {
        self.krate == LOCAL_CRATE
    }

    /// Whether the definition belongs to the analysed program.
    #[verifier::when_used_as_spec(spec_is_local)]
    pub fn is_local(&self) -> (r: bool)
        ensures
            r == self.spec_is_local(),
    {
        self.krate == LOCAL_CRATE
    }
}

/// Identifier of a syntax-tree node: the item that owns it and its index there.
#[derive(Clone, Copy, Debug, PartialEq, Eq, Structural)]
pub struct HirId {
    pub owner: u32,
    pub local_id: u32,
}

/// What kind of definition a path names.
#[derive(Clone, Copy, Debug, PartialEq, Eq, Structural)]
pub enum DefKind {
    Fn,
    Ctor,
    AssocFn,
    Closure,
    Other,
}

/// What name resolution found for a path.
#[derive(Clone, Copy, Debug, PartialEq, Eq, Structural)]
pub enum Res {
    Def(DefKind, DefId),
    Other,
}

/// A path in an expression.
#[derive(Debug)]
pub enum QPath {
    /// A path resolved to what it names.
    Resolved(Res),
    /// A path relative to a type: `<T>::name`; holds the type's own path when
    /// the type is written as a path.
    TypeRelative(Option<Box<QPath>>),
    /// A path to an item the language itself provides.
    LangItem,
}

/// Where a `match` comes from.
#[derive(Clone, Copy, Debug, PartialEq, Eq, Structural)]
pub enum MatchSource {
    /// The desugaring of the `?` operator.
    TryDesugar,
    /// Any other match.
    Normal,
}

/// An expression of a function body.
#[derive(Debug)]
pub struct Expr {
    pub hir_id: HirId,
    pub kind: ExprKind,
}

/// The kinds of expression that matter for finding calls.
#[derive(Debug)]
pub enum ExprKind {
    /// A call of the function value `callee` with arguments.
    Call(Box<Expr>, Vec<Expr>),
    /// A method call on a receiver, with arguments and the method that type
    /// checking chose, where it chose one.
    MethodCall(Box<Expr>, Vec<Expr>, Option<DefId>),
    /// A match on a scrutinee.
    Match(Box<Expr>, Vec<Arm>, MatchSource),
    /// `if`, with its condition, its branch and its `else` branch.
    If(Box<Expr>, Box<Expr>, Option<Box<Expr>>),
    /// A closure literal, with the closure's own definition.
    Closure(DefId),
    /// A block, a loop body or a constant block.
    Block(Block),
    /// A path used as a value.
    Path(QPath),
    /// `return`, with its value if any.
    Ret(Option<Box<Expr>>),
    /// A value whose temporaries are dropped at once.
    DropTemps(Box<Expr>),
    /// Any other expression, with its operands in source order.
    Nested(Vec<Expr>),
    /// An expression without operands: a literal, `continue`, and the like.
    Leaf,
}

/// One arm of a match.
#[derive(Debug)]
pub struct Arm {
    pub pat: Pat,
    pub guard: Option<Expr>,
    pub body: Expr,
}

/// A pattern.
#[derive(Debug)]
pub enum Pat {
    /// A pattern without sub-patterns or expressions.
    Leaf,
    /// A pattern made of sub-patterns.
    Nested(Vec<Pat>),
    /// A literal pattern.
    Lit(Box<Expr>),
    /// A range pattern, with its bounds.
    Range(Option<Box<Expr>>, Option<Box<Expr>>),
}

/// A block: statements, then an optional final expression.
#[derive(Debug)]
pub struct Block {
    pub stmts: Vec<Stmt>,
    pub expr: Option<Box<Expr>>,
}

/// A statement.
#[derive(Debug)]
pub enum Stmt {
    /// `let`, with its initialiser if any.
    Let(Option<Expr>),
    /// A nested item.
    Item,
    /// An expression statement, with or without a semicolon.
    Expr(Expr),
}

/// A type, as printed, with its generic arguments.
#[derive(Debug)]
pub struct TypeDesc {
    pub printed: String,
    pub args: Vec<TypeDesc>,
    /// Whether this is an opaque type that stands for a future.
    pub opaque_future: bool,
    /// For an opaque type whose hidden type is a coroutine, that coroutine's
    /// generic arguments.
    pub coroutine_args: Option<Vec<TypeDesc>>,
}

/// What the program knows of one definition.
#[derive(Debug)]
pub struct DefInfo {
    pub def_id: DefId,
    /// For a local definition, the syntax node that owns it.
    pub hir_id: Option<HirId>,
    /// The fully qualified path.
    pub path: String,
    /// The definition's type.
    pub ty: Option<TypeDesc>,
    /// For a function, the return type of its declared signature.
    pub sig_output: Option<TypeDesc>,
}

/// The body of a local function, closure or method.
#[derive(Debug)]
pub struct FnBody {
    pub hir_id: HirId,
    pub block: Block,
}

/// A compiled call: where its callee expression ends, and the callee with its
/// instantiated return type when it is statically known.
#[derive(Debug)]
pub struct MirCall {
    pub fn_span_hi: u32,
    pub callee: Option<MirCallee>,
}

/// A statically known callee of a compiled call.
#[derive(Debug)]
pub struct MirCallee {
    pub def_id: DefId,
    pub output: TypeDesc,
}

/// The compiled calls of one definition's body.
#[derive(Debug)]
pub struct MirBody {
    pub owner: DefId,
    pub calls: Vec<MirCall>,
}

/// Where the source text of an expression ends.
#[derive(Clone, Copy, Debug, PartialEq, Eq, Structural)]
pub struct SpanOf {
    pub hir_id: HirId,
    pub hi: u32,
}

/// Everything the analysis needs to know of one program.
#[derive(Debug)]
pub struct Program {
    pub crate_name: String,
    /// The designated entry function.
    pub entry: Option<DefId>,
    pub defs: Vec<DefInfo>,
    pub bodies: Vec<FnBody>,
    pub mir: Vec<MirBody>,
    pub spans: Vec<SpanOf>,
}

/// The first definition record of `d` in `defs`.
pub open spec fn find_def(defs: Seq<DefInfo>, d: DefId) -> Option<DefInfo>
    decreases defs.len(),
{
    if defs.len() == 0 {
        None
    } else if defs[0].def_id == d {
        Some(defs[0])
    } else {
        find_def(defs.drop_first(), d)
    }
}

/// The first body whose syntax node is `h`.
pub open spec fn find_body(bodies: Seq<FnBody>, h: HirId) -> Option<FnBody>
    decreases bodies.len(),
{
    if bodies.len() == 0 {
        None
    } else if bodies[0].hir_id == h {
        Some(bodies[0])
    } else {
        find_body(bodies.drop_first(), h)
    }
}

/// The first compiled body owned by `d`.
pub open spec fn find_mir(mir: Seq<MirBody>, d: DefId) -> Option<MirBody>
    decreases mir.len(),
{
    if mir.len() == 0 {
        None
    } else if mir[0].owner == d {
        Some(mir[0])
    } else {
        find_mir(mir.drop_first(), d)
    }
}

/// Where expression `h` ends, by the first record of it.
pub open spec fn find_span(spans: Seq<SpanOf>, h: HirId) -> Option<u32>
    decreases spans.len(),
{
    if spans.len() == 0 {
        None
    } else if spans[0].hir_id == h {
        Some(spans[0].hi)
    } else {
        find_span(spans.drop_first(), h)
    }
}

/// The first compiled call that ends at `hi` and has a known callee.
pub open spec fn find_callee(calls: Seq<MirCall>, hi: u32) -> Option<MirCallee>
    decreases calls.len(),
{
    if calls.len() == 0 {
        None
    } else if calls[0].fn_span_hi == hi && calls[0].callee is Some {
        calls[0].callee
    } else {
        find_callee(calls.drop_first(), hi)
    }
}

/// The definition that owns the syntax nodes of item `owner`.
pub open spec fn owner_def_id(owner: u32) -> DefId {
    DefId { krate: LOCAL_CRATE, index: owner }
}

impl Program {
    /// The record of definition `d`.
    pub fn def_info(&self, d: DefId) -> (r: Option<&DefInfo>)
        ensures
            r matches Some(x) ==> find_def(self.defs@, d) == Some(*x),
            r is None ==> find_def(self.defs@, d) is None,
    {
        let mut i: usize = 0;
        proof {
            assert(self.defs@.skip(0) =~= self.defs@);
        }
        while i < self.defs.len()
            invariant
                i <= self.defs@.len(),
                find_def(self.defs@, d) == find_def(self.defs@.skip(i as int), d),
            decreases self.defs@.len() - i,
        {
            proof {
                assert(self.defs@.skip(i as int).drop_first() =~= self.defs@.skip(i + 1));
            }
            if self.defs[i].def_id == d {
                return Some(&self.defs[i]);
            }
            i = i + 1;
        }
        None
    }

    /// The body whose syntax node is `h`.
    pub fn body_of(&self, h: HirId) -> (r: Option<&FnBody>)
        ensures
            r matches Some(x) ==> find_body(self.bodies@, h) == Some(*x),
            r is None ==> find_body(self.bodies@, h) is None,
    {
        let mut i: usize = 0;
        proof {
            assert(self.bodies@.skip(0) =~= self.bodies@);
        }
        while i < self.bodies.len()
            invariant
                i <= self.bodies@.len(),
                find_body(self.bodies@, h) == find_body(self.bodies@.skip(i as int), h),
            decreases self.bodies@.len() - i,
        {
            proof {
                assert(self.bodies@.skip(i as int).drop_first() =~= self.bodies@.skip(i + 1));
            }
            if self.bodies[i].hir_id == h {
                return Some(&self.bodies[i]);
            }
            i = i + 1;
        }
        None
    }

    /// The compiled body owned by `d`, if it is available.
    pub fn mir_of(&self, d: DefId) -> (r: Option<&MirBody>)
        ensures
            r matches Some(x) ==> find_mir(self.mir@, d) == Some(*x),
            r is None ==> find_mir(self.mir@, d) is None,
    {
        let mut i: usize = 0;
        proof {
            assert(self.mir@.skip(0) =~= self.mir@);
        }
        while i < self.mir.len()
            invariant
                i <= self.mir@.len(),
                find_mir(self.mir@, d) == find_mir(self.mir@.skip(i as int), d),
            decreases self.mir@.len() - i,
        {
            proof {
                assert(self.mir@.skip(i as int).drop_first() =~= self.mir@.skip(i + 1));
            }
            if self.mir[i].owner == d {
                return Some(&self.mir[i]);
            }
            i = i + 1;
        }
        None
    }

    /// Where the source text of expression `h` ends.
    pub fn span_hi(&self, h: HirId) -> (r: Option<u32>)
        ensures
            r == find_span(self.spans@, h),
    {
        let mut i: usize = 0;
        proof {
            assert(self.spans@.skip(0) =~= self.spans@);
        }
        while i < self.spans.len()
            invariant
                i <= self.spans@.len(),
                find_span(self.spans@, h) == find_span(self.spans@.skip(i as int), h),
            decreases self.spans@.len() - i,
        {
            proof {
                assert(self.spans@.skip(i as int).drop_first() =~= self.spans@.skip(i + 1));
            }
            if self.spans[i].hir_id == h {
                return Some(self.spans[i].hi);
            }
            i = i + 1;
        }
        None
    }
}

impl MirBody {
    /// The first compiled call that ends at `hi` and has a known callee.
    pub fn callee_at(&self, hi: u32) -> (r: Option<&MirCallee>)
        ensures
            r matches Some(x) ==> find_callee(self.calls@, hi) == Some(*x),
            r is None ==> find_callee(self.calls@, hi) is None,
    {
        let mut i: usize = 0;
        proof {
            assert(self.calls@.skip(0) =~= self.calls@);
        }
        while i < self.calls.len()
            invariant
                i <= self.calls@.len(),
                find_callee(self.calls@, hi) == find_callee(self.calls@.skip(i as int), hi),
            decreases self.calls@.len() - i,
        {
            proof {
                assert(self.calls@.skip(i as int).drop_first() =~= self.calls@.skip(i + 1));
            }
            if self.calls[i].fn_span_hi == hi {
                if let Some(c) = &self.calls[i].callee {
                    return Some(c);
                }
            }
            i = i + 1;
        }
        None
    }
}

} // verus!
