//! The compiler's state and its elementary steps.

use indexmap::IndexMap;
use vstd::prelude::*;

use crate::ast::{CExpr, Param};
use crate::compiler::numeric::{num_types, record_types, NumTy};
use crate::compiler::pool;
use crate::compiler::pool::{ConstPool, Constant, PoolView};
use crate::index_maps;
use crate::index_maps::insert_name_id;
use crate::op::Op;
use crate::parser_runtime::{quote, quoted};
use crate::program::{function_views, Function, FunctionView};
use crate::text::{append_decimal, decimal, texts};

verus! {

/// Why a program cannot be compiled.
#[derive(Debug, PartialEq)]
pub enum CompileError {
    /// A name that is neither a local nor a function.
    UnknownVariable { name: String },
    UnknownUnary { op: String },
    UnknownBinary { op: String },
    /// A call of a built-in combinator lacks its argument of this position.
    MissingArgument { position: usize },
    /// A function needs more locals than can be numbered.
    TooManyLocals,
    /// A function has more field accesses than can be numbered.
    TooManyFieldAccesses,
}

/// A compile error, seen as a mathematical object.
pub enum CompileFault {
    UnknownVariable(Seq<char>),
    UnknownUnary(Seq<char>),
    UnknownBinary(Seq<char>),
    MissingArgument(nat),
    TooManyLocals,
    TooManyFieldAccesses,
}

impl View for CompileError {
    type V = CompileFault;

    open spec fn view(&self) -> CompileFault {
        match self {
            CompileError::UnknownVariable { name } => CompileFault::UnknownVariable(name@),
            CompileError::UnknownUnary { op } => CompileFault::UnknownUnary(op@),
            CompileError::UnknownBinary { op } => CompileFault::UnknownBinary(op@),
            CompileError::MissingArgument { position } => CompileFault::MissingArgument(
                *position as nat,
            ),
            CompileError::TooManyLocals => CompileFault::TooManyLocals,
            CompileError::TooManyFieldAccesses => CompileFault::TooManyFieldAccesses,
        }
    }
}

/// The text of a compile error.
pub open spec fn fault_text(f: CompileFault) -> Seq<char> {
    match f {
        CompileFault::UnknownVariable(name) => "unknown var in compiler: "@ + name,
        CompileFault::UnknownUnary(op) => "unknown unary: "@ + op,
        CompileFault::UnknownBinary(op) => "unknown binop: "@ + quoted(op),
        CompileFault::MissingArgument(k) => "missing argument "@ + decimal(k),
        CompileFault::TooManyLocals => "too many locals"@,
        CompileFault::TooManyFieldAccesses => "too many field accesses"@,
    }
}

impl CompileError {
    pub fn message(&self) -> (s: String)
        ensures
            s@ == fault_text(self@),
    {
        match self {
            CompileError::UnknownVariable { name } => {
                let mut s = "unknown var in compiler: ".to_owned();
                s.append(name.as_str());
                s
            },
            CompileError::UnknownUnary { op } => {
                let mut s = "unknown unary: ".to_owned();
                s.append(op.as_str());
                s
            },
            CompileError::UnknownBinary { op } => {
                let mut s = "unknown binop: ".to_owned();
                s.append(quote(op.as_str()).as_str());
                s
            },
            CompileError::MissingArgument { position } => {
                let mut s = "missing argument ".to_owned();
                append_decimal(&mut s, *position as u128);
                s
            },
            CompileError::TooManyLocals => "too many locals".to_owned(),
            CompileError::TooManyFieldAccesses => "too many field accesses".to_owned(),
        }
    }
}

/// A lambda whose body is still to be compiled.
pub struct PendingLambda<'a> {
    pub fn_id: u32,
    /// The captured locals, in order.
    pub capture_names: Vec<String>,
    pub params: &'a Vec<Param>,
    pub body: &'a CExpr,
}

/// A pending lambda, seen as a mathematical object.
pub struct LambdaJob {
    pub fn_id: u32,
    pub captures: Seq<Seq<char>>,
    pub params: Seq<Param>,
    pub body: CExpr,
}

impl<'a> View for PendingLambda<'a> {
    type V = LambdaJob;

    open spec fn view(&self) -> LambdaJob {
        LambdaJob {
            fn_id: self.fn_id,
            captures: texts(self.capture_names@),
            params: self.params@,
            body: *self.body,
        }
    }
}

pub open spec fn jobs(v: Seq<PendingLambda>) -> Seq<LambdaJob> {
    Seq::new(v.len(), |i: int| v[i]@)
}

/// The names that a function body can refer to besides its locals.
pub struct Names<'a> {
    pub functions: &'a IndexMap<String, u32>,
    pub modules: &'a IndexMap<String, String>,
    /// Whether calls carry the ids of their syntax tree nodes.
    pub traced: bool,
}

/// The same, as a mathematical object.
pub struct Globals {
    pub functions: Map<Seq<char>, u32>,
    pub modules: Map<Seq<char>, Seq<char>>,
    pub traced: bool,
}

impl<'a> View for Names<'a> {
    type V = Globals;

    open spec fn view(&self) -> Globals {
        Globals {
            functions: index_maps::name_ids(*self.functions),
            modules: index_maps::aliases(*self.modules),
            traced: self.traced,
        }
    }
}

/// A program under compilation: what all functions share, and the function
/// that is being compiled.
pub struct FnCompiler<'a> {
    pub pool: ConstPool,
    pub functions: Vec<Function>,
    pub pending_lambdas: Vec<PendingLambda<'a>>,
    /// The first error.
    pub fault: Option<CompileError>,
    pub code: Vec<Op>,
    /// The slots of the locals in scope.
    pub locals: IndexMap<String, u32>,
    pub next_local: u16,
    /// The greatest number of locals so far.
    pub peak_local: u16,
    pub local_types: IndexMap<String, NumTy>,
    pub local_record_field_types: IndexMap<String, IndexMap<String, NumTy>>,
    /// The number of field accesses so far.
    pub field_get_sites: u32,
}

/// The same, as a mathematical object.
#[verifier::ext_equal]
pub struct Draft {
    pub pool: PoolView,
    pub functions: Seq<FunctionView>,
    pub pending: Seq<LambdaJob>,
    pub fault: Option<CompileFault>,
    pub code: Seq<Op>,
    pub locals: Map<Seq<char>, u32>,
    pub next_local: u16,
    pub peak_local: u16,
    pub types: Map<Seq<char>, NumTy>,
    pub records: Map<Seq<char>, Map<Seq<char>, NumTy>>,
    pub sites: u32,
}

impl<'a> View for FnCompiler<'a> {
    type V = Draft;

    open spec fn view(&self) -> Draft {
        Draft {
            pool: self.pool@,
            functions: function_views(self.functions@),
            pending: jobs(self.pending_lambdas@),
            fault: match self.fault {
                Some(e) => Some(e@),
                None => None,
            },
            code: self.code@,
            locals: index_maps::name_ids(self.locals),
            next_local: self.next_local,
            peak_local: self.peak_local,
            types: num_types(self.local_types),
            records: record_types(self.local_record_field_types),
            sites: self.field_get_sites,
        }
    }
}

/// An op at the end of the code.
pub open spec fn emitted(s: Draft, op: Op) -> Draft {
    Draft { code: s.code.push(op), ..s }
}

/// Ops at the end of the code.
pub open spec fn emitted_all(s: Draft, ops: Seq<Op>) -> Draft {
    Draft { code: s.code + ops, ..s }
}

/// An error, unless there is one already.
pub open spec fn failed(s: Draft, f: CompileFault) -> Draft {
    Draft {
        fault: match s.fault {
            Some(_) => s.fault,
            None => Some(f),
        },
        ..s
    }
}

/// The number behind a number of locals.
pub open spec fn next_slot(n: u16) -> u16 {
    if n == u16::MAX {
        0
    } else {
        (n + 1) as u16
    }
}

/// A fresh local with a name. Its slot is the old `next_local`.
#[verifier::opaque]
pub open spec fn with_local(s: Draft, name: Seq<char>) -> Draft {
    let n = next_slot(s.next_local);
    let t = Draft {
        locals: s.locals.insert(name, s.next_local as u32),
        next_local: n,
        peak_local: if n > s.peak_local {
            n
        } else {
            s.peak_local
        },
        ..s
    };
    if s.next_local == u16::MAX {
        failed(t, CompileFault::TooManyLocals)
    } else {
        t
    }
}

/// A fresh local is all that changes.
pub broadcast proof fn lemma_with_local(s: Draft, name: Seq<char>)
    ensures
        (#[trigger] with_local(s, name)).pending == s.pending,
        with_local(s, name).functions == s.functions,
        with_local(s, name).code == s.code,
        with_local(s, name).pool == s.pool,
{
    reveal(with_local);
}

/// A fresh local that takes the value on the stack.
pub open spec fn stored(s: Draft, name: Seq<char>) -> Draft {
    emitted(with_local(s, name), Op::StoreLocal(s.next_local))
}

/// A constant in the pool.
pub open spec fn interned(s: Draft, c: Constant) -> Draft {
    Draft { pool: pool::with_const(s.pool, c), ..s }
}

/// The number of a constant.
pub open spec fn number(s: Draft, c: Constant) -> u32 {
    pool::const_number(s.pool, c)
}

/// A field access of the value on the stack.
pub open spec fn field_read(s: Draft, field: Seq<char>) -> Draft {
    let c = Constant::FieldName(field);
    let t = emitted(
        interned(s, c),
        Op::GetField { name_idx: number(s, c), site_idx: s.sites },
    );
    if s.sites == u32::MAX {
        failed(Draft { sites: 0, ..t }, CompileFault::TooManyFieldAccesses)
    } else {
        Draft { sites: (s.sites + 1) as u32, ..t }
    }
}

impl<'a> FnCompiler<'a> {
    pub open spec fn wf(&self) -> bool {
        self.pool.wf()
    }

    pub fn emit(&mut self, op: Op)
        requires
            old(self).wf(),
        ensures
            final(self).wf(),
            final(self)@ == emitted(old(self)@, op),
    {
        self.code.push(op);
    }

    pub fn emit_all(&mut self, ops: Vec<Op>)
        requires
            old(self).wf(),
        ensures
            final(self).wf(),
            final(self)@ == emitted_all(old(self)@, ops@),
    {
        let mut ops = ops;
        self.code.append(&mut ops);
    }

    pub fn fail(&mut self, e: CompileError)
        requires
            old(self).wf(),
        ensures
            final(self).wf(),
            final(self)@ == failed(old(self)@, e@),
    {
        if self.fault.is_none() {
            self.fault = Some(e);
        }
    }

    /// Makes a local.
    pub fn alloc_local(&mut self, name: &str) -> (slot: u16)
        requires
            old(self).wf(),
        ensures
            final(self).wf(),
            final(self)@ == with_local(old(self)@, name@),
            slot == old(self)@.next_local,
    {
        reveal(with_local);
        let slot: u16 = self.next_local;
        insert_name_id(&mut self.locals, name.to_owned(), slot as u32);
        if slot == u16::MAX {
            self.next_local = 0;
        } else {
            self.next_local = slot + 1;
        }
        if self.next_local > self.peak_local {
            self.peak_local = self.next_local;
        }
        if slot == u16::MAX {
            self.fail(CompileError::TooManyLocals);
        }
        slot
    }

    /// Makes a local and moves the value on the stack into it.
    pub fn store_local(&mut self, name: &str) -> (slot: u16)
        requires
            old(self).wf(),
        ensures
            final(self).wf(),
            final(self)@ == stored(old(self)@, name@),
            slot == old(self)@.next_local,
    {
        let slot: u16 = self.alloc_local(name);
        self.emit(Op::StoreLocal(slot));
        slot
    }

    /// Numbers a variant tag.
    pub fn variant(&mut self, name: &str) -> (i: u32)
        requires
            old(self).wf(),
        ensures
            final(self).wf(),
            final(self)@ == interned(old(self)@, Constant::VariantName(name@)),
            i == number(old(self)@, Constant::VariantName(name@)),
    {
        self.pool.variant(name)
    }

    /// Numbers a node id.
    pub fn node_id(&mut self, name: &str) -> (i: u32)
        requires
            old(self).wf(),
        ensures
            final(self).wf(),
            final(self)@ == interned(old(self)@, Constant::NodeId(name@)),
            i == number(old(self)@, Constant::NodeId(name@)),
    {
        self.pool.node_id(name)
    }

    /// Numbers a text.
    pub fn text(&mut self, name: &str) -> (i: u32)
        requires
            old(self).wf(),
        ensures
            final(self).wf(),
            final(self)@ == interned(old(self)@, Constant::Str(name@)),
            i == number(old(self)@, Constant::Str(name@)),
    {
        self.pool.text(name)
    }

    /// Numbers an integer.
    pub fn integer(&mut self, n: i64) -> (i: u32)
        requires
            old(self).wf(),
        ensures
            final(self).wf(),
            final(self)@ == interned(old(self)@, Constant::Int(n)),
            i == number(old(self)@, Constant::Int(n)),
    {
        self.pool.integer(n)
    }

    /// Reads a field of the value on the stack.
    pub fn read_field(&mut self, field: &str)
        requires
            old(self).wf(),
        ensures
            final(self).wf(),
            final(self)@ == field_read(old(self)@, field@),
    {
        let name_idx: u32 = self.pool.field(field);
        let site_idx: u32 = self.field_get_sites;
        self.code.push(Op::GetField { name_idx, site_idx });
        if site_idx == u32::MAX {
            self.field_get_sites = 0;
            self.fail(CompileError::TooManyFieldAccesses);
        } else {
            self.field_get_sites = site_idx + 1;
        }
    }
}

} // verus!
