//! The beam interpreter: one command at a time over a value stack, call frames and the
//! heap. Float arithmetic is left to the caller: a command that needs it stops with the
//! operation to do and the place its result goes.
use crate::beam::mach::{
    cmds_view, st_ok, st_type, table_view, var_type, var_type_ok, Binop, Cmd, CmdV, Frame,
    HeapInternal, HeapView, Machine, TyV, Type, Value, Var, VarV, HEAP_CELLS, spec_allocate,
};
use crate::text::{push_str, str_equal};
use vstd::prelude::*;

verus! {

/// The model of a value.
pub enum ValueV {
    Unit,
    Integer { v: i64 },
    Float { bits: u64 },
    String { v: Seq<char> },
    Bool { v: bool },
    Object { ptr: u64 },
    ObjectHeader { information: u32, size: u32 },
}

impl View for Value {
    type V = ValueV;

    open spec fn view(&self) -> ValueV {
        match self {
            Value::Unit => ValueV::Unit,
            Value::Integer { v } => ValueV::Integer { v: *v },
            Value::Float { bits } => ValueV::Float { bits: *bits },
            Value::String { v } => ValueV::String { v: v@ },
            Value::Bool { v } => ValueV::Bool { v: *v },
            Value::Object { ptr } => ValueV::Object { ptr: *ptr },
            Value::ObjectHeader { information, size } => ValueV::ObjectHeader {
                information: *information,
                size: *size,
            },
        }
    }
}

/// A copy of a value.
pub fn copy_value(v: &Value) -> (r: Value)
    ensures
        r@ == v@,
{
    match v {
        Value::Unit => Value::Unit,
        Value::Integer { v } => Value::Integer { v: *v },
        Value::Float { bits } => Value::Float { bits: *bits },
        Value::String { v } => Value::String { v: v.clone() },
        Value::Bool { v } => Value::Bool { v: *v },
        Value::Object { ptr } => Value::Object { ptr: *ptr },
        Value::ObjectHeader { information, size } => Value::ObjectHeader {
            information: *information,
            size: *size,
        },
    }
}

/// The views of a list of values.
pub open spec fn values_view(s: Seq<Value>) -> Seq<ValueV> {
    s.map_values(|v: Value| v@)
}

/// The model of a call frame.
pub struct FrameV {
    pub ip: u64,
    pub v_start: u64,
    pub v_end: u64,
    pub to_return: Option<VarV>,
}

/// The view of a call frame.
pub open spec fn frame_view(f: Frame) -> FrameV {
    FrameV {
        ip: f.ip,
        v_start: f.v_start,
        v_end: f.v_end,
        to_return: match f.to_return {
            Some(v) => Some(v@),
            None => None,
        },
    }
}

/// The heap's bookkeeping without its cells.
pub open spec fn meta(h: HeapView) -> HeapView {
    HeapView { values: Seq::empty(), ..h }
}

/// The model of the interpreter's changing state: instruction pointer, variable range,
/// frames, pending result place, the heap's bookkeeping and its cells, the stack, and
/// whether it has halted.
#[verifier::ext_equal]
pub struct RunV {
    pub ip: u64,
    pub v_start: u64,
    pub v_end: u64,
    pub frames: Seq<FrameV>,
    pub to_return: Option<VarV>,
    pub heap: HeapView,
    pub cells: Seq<ValueV>,
    pub stack: Seq<ValueV>,
    pub done: bool,
}

/// What the interpreter runs against: the commands, the type table and the float
/// constants' bits.
pub struct EnvV {
    pub cmds: Seq<CmdV>,
    pub table: Seq<(Seq<char>, TyV)>,
    pub floats: Map<Seq<char>, u64>,
}

/// A place a value can be written to: a stack slot or a heap cell.
#[derive(Clone, Copy, Debug, PartialEq, Eq, Structural)]
pub enum Loc {
    Stack { at: usize },
    Heap { at: usize },
}

impl Machine {
    /// The machine's changing state.
    pub open spec fn run_view(&self) -> RunV {
        RunV {
            ip: self.ip,
            v_start: self.v_start,
            v_end: self.v_end,
            frames: self.frames@.map_values(|f: Frame| frame_view(f)),
            to_return: match self.to_return {
                Some(v) => Some(v@),
                None => None,
            },
            heap: meta(self.heap.view()),
            cells: values_view(self.heap.values@),
            stack: values_view(self.stack@),
            done: self.done,
        }
    }

    /// The machine's fixed parts.
    pub open spec fn env(&self) -> EnvV {
        EnvV {
            cmds: cmds_view(self.cmds@),
            table: table_view(self.type_table@),
            floats: self.float_consts.map(),
        }
    }

    /// The machine's parts are well formed.
    pub open spec fn wf(&self) -> bool {
        self.heap.wf() && self.float_consts.wf()
    }
}

/// The value a variable of type `t` starts with; none for structures and functions.
pub open spec fn default_of(t: TyV) -> Option<ValueV> {
    match t {
        TyV::Void => Some(ValueV::Unit),
        TyV::Integer => Some(ValueV::Integer { v: 0 }),
        TyV::Float => Some(ValueV::Float { bits: 0 }),
        TyV::Bool => Some(ValueV::Bool { v: false }),
        TyV::String => Some(ValueV::String { v: seq![] }),
        TyV::Ptr { .. } => Some(ValueV::Object { ptr: 0 }),
        _ => None,
    }
}

impl Type {
    /// The value a variable of this type starts with (see `default_of`).
    pub fn as_default(&self, _types: &[(String, Type)]) -> (r: Result<Value, String>)
        requires
            default_of(self@) is Some,
        ensures
            r is Ok && r->Ok_0@ == default_of(self@)->0,
    {
        match self {
            Type::Void => Ok(Value::Unit),
            Type::Integer => Ok(Value::Integer { v: 0 }),
            Type::Float => Ok(Value::Float { bits: 0 }),
            Type::Bool => Ok(Value::Bool { v: false }),
            Type::String => {
                let s = String::new();
                assert(s@ =~= seq![]);
                Ok(Value::String { v: s })
            },
            Type::Ptr { .. } => Ok(Value::Object { ptr: 0 }),
            _ => {
                assert(false);
                Err(String::new())
            },
        }
    }
}

/// A structure can be allocated by `new`: its reference resolves to a structure whose
/// fields all resolve to types with a starting value.
pub open spec fn new_ok(nt: crate::beam::mach::STV, table: Seq<(Seq<char>, TyV)>) -> bool {
    &&& st_ok(nt, table)
    &&& st_type(nt, table) is Struct
    &&& forall|i: int| 0 <= i < st_type(nt, table)->Struct_fields.len() ==> {
        let f = #[trigger] st_type(nt, table)->Struct_fields[i].1;
        st_ok(f, table) && default_of(st_type(f, table)) is Some
    }
}

/// The outcome of reading an operand: a panic, or the state after (a `new` allocates)
/// and the value.
pub enum GetV {
    Stuck,
    Got(RunV, ValueV),
}

/// The cells after the `k` first fields of a new object at `ptr` take their starting
/// values.
pub open spec fn fill_defaults(cells: Seq<ValueV>, ptr: int, fields: Seq<(Seq<char>, crate::beam::mach::STV)>, table: Seq<(Seq<char>, TyV)>, k: nat) -> Seq<ValueV>
    decreases k,
{
    if k == 0 {
        cells
    } else {
        fill_defaults(cells, ptr, fields, table, (k - 1) as nat).update(ptr + k, default_of(st_type(fields[k - 1].1, table))->0)
    }
}

/// Reading an operand: a variable's stack slot (its index counted from the start of
/// the current range), a constant (a float by its text's bits), a field through the
/// object it belongs to, or a new object: allocated with its fields at their starting
/// values, its header recording the type's position.
pub open spec fn get_value(s: RunV, v: VarV, env: EnvV) -> GetV
    decreases v,
{
    match v {
        VarV::Stack { index, .. } => {
            let k = s.v_start + index;
            if k <= usize::MAX && k < s.stack.len() {
                GetV::Got(s, s.stack[k])
            } else {
                GetV::Stuck
            }
        },
        VarV::ConstInt { value } => GetV::Got(s, ValueV::Integer { v: value }),
        VarV::ConstFloat { value } => if env.floats.dom().contains(value) {
            GetV::Got(s, ValueV::Float { bits: env.floats[value] })
        } else {
            GetV::Stuck
        },
        VarV::ConstString { value } => GetV::Got(s, ValueV::String { v: value }),
        VarV::ConstBool { value } => GetV::Got(s, ValueV::Bool { v: value }),
        VarV::Unit => GetV::Got(s, ValueV::Unit),
        VarV::FieldAccess { of, index, .. } => match get_value(s, *of, env) {
            GetV::Got(s1, ValueV::Object { ptr }) => {
                let k = ptr + index + 1;
                if k <= usize::MAX && k < s1.cells.len() {
                    GetV::Got(s1, s1.cells[k])
                } else {
                    GetV::Stuck
                }
            },
            _ => GetV::Stuck,
        },
        VarV::FunctionLiteral { .. } => GetV::Stuck,
        VarV::OperatorNew { new_type } => if !new_ok(new_type, env.table) {
            GetV::Stuck
        } else {
            let fields = st_type(new_type, env.table)->Struct_fields;
            let count = fields.len();
            if count >= u32::MAX || count > usize::MAX {
                GetV::Stuck
            } else {
                let (h, r) = spec_allocate(s.heap, count as usize, new_type.index as u32);
                match r {
                    None => GetV::Stuck,
                    Some(ptr) => if ptr + count >= s.cells.len() {
                        GetV::Stuck
                    } else {
                        let cells0 = s.cells.update(
                            ptr - 1,
                            ValueV::ObjectHeader { information: new_type.index as u32, size: count as u32 },
                        );
                        GetV::Got(
                            RunV { heap: meta(h), cells: fill_defaults(cells0, ptr as int, fields, env.table, count), ..s },
                            ValueV::Object { ptr: ptr as u64 },
                        )
                    },
                }
            }
        },
    }
}

/// An outcome that may fail with a message: a panic, an error (with the state reached),
/// or a value (with the state reached).
pub enum Res<T> {
    Stuck,
    Fail(RunV, Seq<char>),
    Done(RunV, T),
}

/// Reading an integer operand.
pub open spec fn get_int(s: RunV, v: VarV, env: EnvV) -> Res<i64> {
    match get_value(s, v, env) {
        GetV::Got(s1, ValueV::Integer { v }) => Res::Done(s1, v),
        GetV::Got(s1, _) => Res::Fail(s1, "accessed non int as int"@),
        GetV::Stuck => Res::Stuck,
    }
}

/// Reading a float operand (its bits).
pub open spec fn get_float(s: RunV, v: VarV, env: EnvV) -> Res<u64> {
    match get_value(s, v, env) {
        GetV::Got(s1, ValueV::Float { bits }) => Res::Done(s1, bits),
        GetV::Got(s1, _) => Res::Fail(s1, "accessed non float as float"@),
        GetV::Stuck => Res::Stuck,
    }
}

/// Reading a boolean operand.
pub open spec fn get_bool(s: RunV, v: VarV, env: EnvV) -> Res<bool> {
    match get_value(s, v, env) {
        GetV::Got(s1, ValueV::Bool { v }) => Res::Done(s1, v),
        GetV::Got(s1, _) => Res::Fail(s1, "accessed non bool as bool"@),
        GetV::Stuck => Res::Stuck,
    }
}

/// Reading a string operand.
pub open spec fn get_string(s: RunV, v: VarV, env: EnvV) -> Res<Seq<char>> {
    match get_value(s, v, env) {
        GetV::Got(s1, ValueV::String { v }) => Res::Done(s1, v),
        GetV::Got(s1, _) => Res::Fail(s1, "accessed non string as string"@),
        GetV::Stuck => Res::Stuck,
    }
}

/// The place an operand stands for: a variable's stack slot, or a field's heap cell
/// (through its object); any other operand is an error with an empty message.
pub open spec fn get_l_value(s: RunV, v: VarV, env: EnvV) -> Res<Loc> {
    match v {
        VarV::Stack { index, .. } => {
            let k = s.v_start + index;
            if k <= usize::MAX && k < s.stack.len() {
                Res::Done(s, Loc::Stack { at: k as usize })
            } else {
                Res::Stuck
            }
        },
        VarV::FieldAccess { of, index, .. } => match get_value(s, *of, env) {
            GetV::Got(s1, ValueV::Object { ptr }) => {
                let k = ptr + index + 1;
                if k <= usize::MAX && k < s1.cells.len() {
                    Res::Done(s1, Loc::Heap { at: k as usize })
                } else {
                    Res::Stuck
                }
            },
            _ => Res::Stuck,
        },
        _ => Res::Fail(s, seq![]),
    }
}

/// The place is in the stack or the heap.
pub open spec fn loc_ok(s: RunV, at: Loc) -> bool {
    match at {
        Loc::Stack { at } => at < s.stack.len(),
        Loc::Heap { at } => at < s.cells.len(),
    }
}

/// The state with `v` written at `at`.
pub open spec fn write(s: RunV, at: Loc, v: ValueV) -> RunV {
    match at {
        Loc::Stack { at } => RunV { stack: s.stack.update(at as int, v), ..s },
        Loc::Heap { at } => RunV { cells: s.cells.update(at as int, v), ..s },
    }
}

impl Machine {
    /// Reads an operand (see `get_value`); a `new` allocates in the heap.
    pub fn get_value(&mut self, var: &Var) -> (r: Value)
        requires
            old(self).wf(),
            !(get_value(old(self).run_view(), var@, old(self).env()) is Stuck),
        ensures
            final(self).symbol_table == old(self).symbol_table,
            final(self).wf(),
            final(self).env() == old(self).env(),
            get_value(old(self).run_view(), var@, old(self).env()) == GetV::Got(final(self).run_view(), r@),
        decreases var,
    {
        let ghost s = self.run_view();
        let ghost env = self.env();
        match var {
            Var::Stack { vtype, index, name } => {
                assert(var@ == (VarV::Stack { vtype: vtype@, index: *index, name: name@ }));
                let k = self.v_start as usize + *index;
                let r = copy_value(&self.stack[k]);
                assert(self.run_view() == s);
                r
            },
            Var::ConstInt { value } => Value::Integer { v: *value },
            Var::ConstFloat { value } => {
                let b = *self.float_consts.get(value.as_str()).unwrap();
                Value::Float { bits: b }
            },
            Var::ConstString { value } => Value::String { v: value.clone() },
            Var::ConstBool { value } => Value::Bool { v: *value },
            Var::Unit => Value::Unit,
            Var::FieldAccess { of, index, return_type } => {
                assert(var@ == (VarV::FieldAccess { of: Box::new((**of)@), index: *index, return_type: return_type@ }));
                let b = self.get_value(of);
                match b {
                    Value::Object { ptr } => {
                        let k = ptr as usize + *index + 1;
                        copy_value(&self.heap.values[k])
                    },
                    _ => {
                        assert(false);
                        Value::Unit
                    },
                }
            },
            Var::FunctionLiteral { .. } => {
                assert(false);
                Value::Unit
            },
            Var::OperatorNew { new_type } => {
                let t = new_type.as_type(self.type_table.as_slice());
                match t {
                    Type::Struct { name: _, fields } => {
                        let ghost fv = crate::beam::mach::fields_view(fields@);
                        let count = fields.len();
                        proof {
                            lemma_allocate_meta(self.heap.view(), count, new_type.index as u32);
                            lemma_allocate_values(self.heap.view(), count, new_type.index as u32);
                        }
                        let ptr = self.heap.allocate(count, new_type.index as u32).unwrap();
                        let ghost h_after = self.heap.view();
                        let ghost cells0 = values_view(self.heap.values@);
                        assert(cells0 =~= s.cells.update(
                            ptr - 1,
                            ValueV::ObjectHeader { information: new_type.index as u32, size: count as u32 },
                        ));
                        let mut i: usize = 1;
                        while i <= count
                            invariant
                                self.symbol_table == old(self).symbol_table,
                                1 <= i <= count + 1,
                                count == fv.len(),
                                fv == crate::beam::mach::fields_view(fields@),
                                ptr + count < cells0.len(),
                                self.heap.wf(),
                                meta(self.heap.view()) == meta(h_after),
                                self.float_consts == old(self).float_consts,
                                self.stack == old(self).stack,
                                self.frames == old(self).frames,
                                self.to_return == old(self).to_return,
                                self.ip == old(self).ip,
                                self.v_start == old(self).v_start,
                                self.v_end == old(self).v_end,
                                self.done == old(self).done,
                                self.cmds == old(self).cmds,
                                self.type_table == old(self).type_table,
                                s == old(self).run_view(),
                                h_after == spec_allocate(old(self).heap.view(), count, new_type.index as u32).0,
                                self.heap.values@.len() == cells0.len(),
                                values_view(self.heap.values@) == fill_defaults(cells0, ptr as int, fv, env.table, (i - 1) as nat),
                                env.table == table_view(self.type_table@),
                                forall|j: int| 0 <= j < fv.len() ==> {
                                    let f = #[trigger] fv[j].1;
                                    st_ok(f, env.table) && default_of(st_type(f, env.table)) is Some
                                },
                            decreases count + 1 - i,
                        {
                            assert(fv[i - 1].1 == fields@[i - 1].1@);
                            assert(st_ok(fv[i - 1].1, env.table));
                            let ft = fields[i - 1].1.as_type(self.type_table.as_slice());
                            let d = ft.as_default(self.type_table.as_slice()).unwrap();
                            let ghost before = self.heap.values@;
                            self.heap.values.set(ptr as usize + i, d);
                            assert(meta(self.heap.view()) =~= meta(h_after));
                            assert(values_view(self.heap.values@) =~= values_view(before).update(ptr + i, default_of(st_type(fv[i - 1].1, env.table))->0));
                            i += 1;
                        }
                        let r = Value::Object { ptr: ptr as u64 };
                        assert(self.run_view() =~= RunV {
                            heap: meta(spec_allocate(s.heap, count, new_type.index as u32).0),
                            cells: fill_defaults(cells0, ptr as int, fv, env.table, count as nat),
                            ..s
                        });
                        r
                    },
                    _ => {
                        assert(false);
                        Value::Unit
                    },
                }
            },
        }
    }
}

proof fn lemma_allocate_values(h: HeapView, count: usize, th: u32)
    requires
        crate::beam::mach::ranges_ok(h.free_list),
        h.tracking.len() == HEAP_CELLS,
    ensures
        spec_allocate(h, count, th).1 is Some ==> {
            let p = spec_allocate(h, count, th).1->0;
            &&& p >= 1
            &&& spec_allocate(h, count, th).0.values == h.values.update(
                p - 1,
                Value::ObjectHeader { information: th, size: count as u32 },
            )
        },
{
    let needed = (count as u32) + 1;
    crate::beam::mach::lemma_last_fit(h.free_list, needed as int);
    crate::beam::mach::lemma_runs(h.tracking, crate::beam::mach::HEAP_START as int, 0, seq![]);
    let i1 = crate::beam::mach::last_fit(h.free_list, needed as int);
    let fl = if i1 == -1 {
        crate::beam::mach::spec_cleanup(h.tracking)
    } else {
        h.free_list
    };
    crate::beam::mach::lemma_last_fit(fl, needed as int);
}

proof fn lemma_allocate_meta(h: HeapView, count: usize, th: u32)
    ensures
        meta(spec_allocate(h, count, th).0) == meta(spec_allocate(meta(h), count, th).0),
        spec_allocate(h, count, th).1 == spec_allocate(meta(h), count, th).1,
{
    assert(meta(spec_allocate(h, count, th).0) =~= meta(spec_allocate(meta(h), count, th).0));
}

impl Machine {
    /// Reads an integer operand (see `get_int`).
    pub fn get_int(&mut self, var: &Var) -> (r: Result<i64, String>)
        requires
            old(self).wf(),
            !(get_int(old(self).run_view(), var@, old(self).env()) is Stuck),
        ensures
            final(self).symbol_table == old(self).symbol_table,
            final(self).wf(),
            final(self).env() == old(self).env(),
            match get_int(old(self).run_view(), var@, old(self).env()) {
                Res::Done(s, v) => r == Ok::<i64, String>(v) && final(self).run_view() == s,
                Res::Fail(s, m) => r is Err && r->Err_0@ == m && final(self).run_view() == s,
                Res::Stuck => false,
            },
    {
        proof {
            reveal_strlit("accessed non int as int");
        }
        match self.get_value(var) {
            Value::Integer { v } => Ok(v),
            _ => Err(String::from_str("accessed non int as int")),
        }
    }

    /// Reads a float operand's bits (see `get_float`).
    pub fn get_float(&mut self, var: &Var) -> (r: Result<u64, String>)
        requires
            old(self).wf(),
            !(get_float(old(self).run_view(), var@, old(self).env()) is Stuck),
        ensures
            final(self).symbol_table == old(self).symbol_table,
            final(self).wf(),
            final(self).env() == old(self).env(),
            match get_float(old(self).run_view(), var@, old(self).env()) {
                Res::Done(s, v) => r == Ok::<u64, String>(v) && final(self).run_view() == s,
                Res::Fail(s, m) => r is Err && r->Err_0@ == m && final(self).run_view() == s,
                Res::Stuck => false,
            },
    {
        proof {
            reveal_strlit("accessed non float as float");
        }
        match self.get_value(var) {
            Value::Float { bits } => Ok(bits),
            _ => Err(String::from_str("accessed non float as float")),
        }
    }

    /// Reads a boolean operand (see `get_bool`).
    pub fn get_bool(&mut self, var: &Var) -> (r: Result<bool, String>)
        requires
            old(self).wf(),
            !(get_bool(old(self).run_view(), var@, old(self).env()) is Stuck),
        ensures
            final(self).symbol_table == old(self).symbol_table,
            final(self).wf(),
            final(self).env() == old(self).env(),
            match get_bool(old(self).run_view(), var@, old(self).env()) {
                Res::Done(s, v) => r == Ok::<bool, String>(v) && final(self).run_view() == s,
                Res::Fail(s, m) => r is Err && r->Err_0@ == m && final(self).run_view() == s,
                Res::Stuck => false,
            },
    {
        proof {
            reveal_strlit("accessed non bool as bool");
        }
        match self.get_value(var) {
            Value::Bool { v } => Ok(v),
            _ => Err(String::from_str("accessed non bool as bool")),
        }
    }

    /// Reads a string operand (see `get_string`).
    pub fn get_string(&mut self, var: &Var) -> (r: Result<String, String>)
        requires
            old(self).wf(),
            !(get_string(old(self).run_view(), var@, old(self).env()) is Stuck),
        ensures
            final(self).symbol_table == old(self).symbol_table,
            final(self).wf(),
            final(self).env() == old(self).env(),
            match get_string(old(self).run_view(), var@, old(self).env()) {
                Res::Done(s, v) => r is Ok && r->Ok_0@ == v && final(self).run_view() == s,
                Res::Fail(s, m) => r is Err && r->Err_0@ == m && final(self).run_view() == s,
                Res::Stuck => false,
            },
    {
        proof {
            reveal_strlit("accessed non string as string");
        }
        match self.get_value(var) {
            Value::String { v } => Ok(v),
            _ => Err(String::from_str("accessed non string as string")),
        }
    }

    /// The place an operand stands for (see `get_l_value`).
    pub fn get_l_value(&mut self, var: &Var) -> (r: Result<Loc, String>)
        requires
            old(self).wf(),
            !(get_l_value(old(self).run_view(), var@, old(self).env()) is Stuck),
        ensures
            final(self).symbol_table == old(self).symbol_table,
            final(self).wf(),
            final(self).env() == old(self).env(),
            match get_l_value(old(self).run_view(), var@, old(self).env()) {
                Res::Done(s, at) => r == Ok::<Loc, String>(at) && final(self).run_view() == s,
                Res::Fail(s, m) => r is Err && r->Err_0@ == m && final(self).run_view() == s,
                Res::Stuck => false,
            },
    {
        match var {
            Var::Stack { vtype, index, name } => {
                assert(var@ == (VarV::Stack { vtype: vtype@, index: *index, name: name@ }));
                let k = self.v_start as usize + *index;
                Ok(Loc::Stack { at: k })
            },
            Var::FieldAccess { of, index, return_type } => {
                assert(var@ == (VarV::FieldAccess { of: Box::new((**of)@), index: *index, return_type: return_type@ }));
                match self.get_value(of) {
                    Value::Object { ptr } => {
                        let k = ptr as usize + *index + 1;
                        Ok(Loc::Heap { at: k })
                    },
                    _ => {
                        assert(false);
                        Err(String::new())
                    },
                }
            },
            _ => {
                let e = String::new();
                assert(e@ =~= seq![]);
                Err(e)
            },
        }
    }

    /// Writes `v` at `at` (see `write`).
    pub fn store(&mut self, at: Loc, v: Value)
        requires
            old(self).wf(),
            loc_ok(old(self).run_view(), at),
        ensures
            final(self).symbol_table == old(self).symbol_table,
            final(self).wf(),
            final(self).env() == old(self).env(),
            final(self).run_view() == write(old(self).run_view(), at, v@),
    {
        let ghost vv = v@;
        match at {
            Loc::Stack { at } => {
                self.stack.set(at, v);
                assert(values_view(self.stack@) =~= values_view(old(self).stack@).update(at as int, vv));
            },
            Loc::Heap { at } => {
                self.heap.values.set(at, v);
                assert(values_view(self.heap.values@) =~= values_view(old(self).heap.values@).update(at as int, vv));
                assert(meta(self.heap.view()) =~= meta(old(self).heap.view()));
            },
        }
        assert(self.run_view() =~= write(old(self).run_view(), at, vv));
    }
}

/// What a step ends with: the next command is due, the program has exited with a
/// value, or a float operation is to be done by the caller and its result written at
/// `at`.
pub enum OutcomeV {
    Continue,
    Exited(ValueV),
    Float { op: Binop, l: u64, r: u64, at: Loc },
}

/// What a step ends with.
#[derive(Debug)]
pub enum Step {
    Continue,
    Exited { value: Value },
    Float { op: Binop, l: u64, r: u64, at: Loc },
}

/// The view of what a step ends with.
pub open spec fn step_view(s: Step) -> OutcomeV {
    match s {
        Step::Continue => OutcomeV::Continue,
        Step::Exited { value } => OutcomeV::Exited(value@),
        Step::Float { op, l, r, at } => OutcomeV::Float { op, l, r, at },
    }
}

/// A step: a panic, or the state after and the outcome or error.
pub enum StepV {
    Stuck,
    Step(RunV, Result<OutcomeV, Seq<char>>),
}

/// Integer arithmetic, where it does not overflow or divide by zero (division rounds
/// toward zero).
pub open spec fn int_arith(op: Binop, a: i64, b: i64) -> Option<i64> {
    match op {
        Binop::Add => a.checked_add(b),
        Binop::Sub => a.checked_sub(b),
        Binop::Mul => a.checked_mul(b),
        Binop::Div => a.checked_div(b),
        _ => None,
    }
}

/// The operation is arithmetic.
pub open spec fn is_arith(op: Binop) -> bool {
    op == Binop::Add || op == Binop::Sub || op == Binop::Mul || op == Binop::Div
}

/// The operation is a comparison.
pub open spec fn is_cmp(op: Binop) -> bool {
    op == Binop::Equal || op == Binop::NotEqual || op == Binop::Less || op == Binop::Greater
}

/// The end of an integer operation whose result goes to `at`: arithmetic needs the
/// result's type to be the operands', a comparison a boolean result.
pub open spec fn int_finish(s: RunV, at: Loc, op: Binop, a: i64, b: i64, lt: TyV, ot: TyV) -> StepV {
    if op == Binop::And {
        StepV::Step(s, Err("and not supported on integers"@))
    } else if op == Binop::Or {
        StepV::Step(s, Err("or not supported on integers"@))
    } else if is_arith(op) {
        if lt != ot {
            StepV::Stuck
        } else {
            match int_arith(op, a, b) {
                Some(v) => StepV::Step(write(s, at, ValueV::Integer { v }), Ok(OutcomeV::Continue)),
                None => StepV::Stuck,
            }
        }
    } else if ot != TyV::Bool {
        StepV::Stuck
    } else {
        let v = if op == Binop::Equal {
            a == b
        } else if op == Binop::NotEqual {
            a != b
        } else if op == Binop::Less {
            a < b
        } else {
            a > b
        };
        StepV::Step(write(s, at, ValueV::Bool { v }), Ok(OutcomeV::Continue))
    }
}

/// The end of a float operation: it is handed to the caller.
pub open spec fn float_finish(s: RunV, at: Loc, op: Binop, a: u64, b: u64, lt: TyV, ot: TyV) -> StepV {
    if op == Binop::And {
        StepV::Step(s, Err("and not supported on floats"@))
    } else if op == Binop::Or {
        StepV::Step(s, Err("or not supported on floats"@))
    } else if is_arith(op) && lt != ot {
        StepV::Stuck
    } else if is_cmp(op) && ot != TyV::Bool {
        StepV::Stuck
    } else {
        StepV::Step(s, Ok(OutcomeV::Float { op, l: a, r: b, at }))
    }
}

/// The end of a boolean operation.
pub open spec fn bool_finish(s: RunV, at: Loc, op: Binop, a: bool, b: bool, ot: TyV) -> StepV {
    if op == Binop::Equal || op == Binop::NotEqual || op == Binop::And || op == Binop::Or {
        if ot != TyV::Bool {
            StepV::Stuck
        } else {
            let v = if op == Binop::Equal {
                a == b
            } else if op == Binop::NotEqual {
                a != b
            } else if op == Binop::And {
                a && b
            } else {
                a || b
            };
            StepV::Step(write(s, at, ValueV::Bool { v }), Ok(OutcomeV::Continue))
        }
    } else {
        StepV::Step(s, Err(" arithmetic not supported on bools"@))
    }
}

/// `s` repeated `n` times.
pub open spec fn repeat(s: Seq<char>, n: nat) -> Seq<char>
    decreases n,
{
    if n == 0 {
        seq![]
    } else {
        repeat(s, (n - 1) as nat) + s
    }
}

/// Reads two operands with `first` and `second`, and the place of `out`; an error of
/// any of them ends the step with its state.
pub open spec fn operands<A, B>(s0: RunV, ra: Res<A>, rb: spec_fn(RunV) -> Res<B>, out: VarV, env: EnvV, k: spec_fn(RunV, Loc, A, B) -> StepV) -> StepV {
    match ra {
        Res::Stuck => StepV::Stuck,
        Res::Fail(s1, m) => StepV::Step(s1, Err(m)),
        Res::Done(s1, a) => match rb(s1) {
            Res::Stuck => StepV::Stuck,
            Res::Fail(s2, m) => StepV::Step(s2, Err(m)),
            Res::Done(s2, b) => match get_l_value(s2, out, env) {
                Res::Stuck => StepV::Stuck,
                Res::Fail(s3, m) => StepV::Step(s3, Err(m)),
                Res::Done(s3, at) => k(s3, at, a, b),
            },
        },
    }
}

/// A binary operation, by the type of its left operand: integers, floats, booleans
/// and strings (concatenation, repetition by an integer, comparison) have operations;
/// the other types are errors.
pub open spec fn binop_step(s0: RunV, l: VarV, r: VarV, out: VarV, op: Binop, env: EnvV) -> StepV {
    let t = env.table;
    if !var_type_ok(l, t) || !var_type_ok(out, t) {
        StepV::Stuck
    } else {
        let lt = var_type(l, t);
        let ot = var_type(out, t);
        match lt {
            TyV::Void => StepV::Step(s0, Err("binop not supported on void"@)),
            TyV::Integer => operands(
                s0,
                get_int(s0, l, env),
                |s1: RunV| get_int(s1, r, env),
                out,
                env,
                |s3: RunV, at: Loc, a: i64, b: i64| int_finish(s3, at, op, a, b, lt, ot),
            ),
            TyV::Float => operands(
                s0,
                get_float(s0, l, env),
                |s1: RunV| get_float(s1, r, env),
                out,
                env,
                |s3: RunV, at: Loc, a: u64, b: u64| float_finish(s3, at, op, a, b, lt, ot),
            ),
            TyV::Bool => operands(
                s0,
                get_bool(s0, l, env),
                |s1: RunV| get_bool(s1, r, env),
                out,
                env,
                |s3: RunV, at: Loc, a: bool, b: bool| bool_finish(s3, at, op, a, b, ot),
            ),
            TyV::String => if op == Binop::Add {
                operands(
                    s0,
                    get_string(s0, l, env),
                    |s1: RunV| get_string(s1, r, env),
                    out,
                    env,
                    |s3: RunV, at: Loc, a: Seq<char>, b: Seq<char>| if ot != TyV::String {
                        StepV::Stuck
                    } else {
                        StepV::Step(write(s3, at, ValueV::String { v: a + b }), Ok(OutcomeV::Continue))
                    },
                )
            } else if op == Binop::Mul {
                operands(
                    s0,
                    get_string(s0, l, env),
                    |s1: RunV| get_int(s1, r, env),
                    out,
                    env,
                    |s3: RunV, at: Loc, a: Seq<char>, n: i64| if n < 0 || ot != TyV::String {
                        StepV::Stuck
                    } else {
                        StepV::Step(write(s3, at, ValueV::String { v: repeat(a, n as nat) }), Ok(OutcomeV::Continue))
                    },
                )
            } else if op == Binop::Equal || op == Binop::NotEqual {
                operands(
                    s0,
                    get_string(s0, l, env),
                    |s1: RunV| get_string(s1, r, env),
                    out,
                    env,
                    |s3: RunV, at: Loc, a: Seq<char>, b: Seq<char>| if ot != TyV::Bool {
                        StepV::Stuck
                    } else {
                        StepV::Step(
                            write(s3, at, ValueV::Bool { v: if op == Binop::Equal { a == b } else { a != b } }),
                            Ok(OutcomeV::Continue),
                        )
                    },
                )
            } else {
                StepV::Stuck
            },
            TyV::Ptr { .. } => StepV::Step(s0, Err("binop not supported on pointers"@)),
            _ => StepV::Step(s0, Err("binop not supported on structures"@)),
        }
    }
}

/// A value placed in the next variable slot: over the slot at `v_end` when the stack
/// holds more than one value past it, else pushed; the range grows by one.
pub open spec fn place(s: RunV, v: ValueV) -> Option<RunV> {
    if s.v_end + 1 > u64::MAX {
        None
    } else if s.stack.len() > s.v_end + 1 {
        Some(RunV { stack: s.stack.update(s.v_end as int, v), v_end: (s.v_end + 1) as u64, ..s })
    } else {
        Some(RunV { stack: s.stack.push(v), v_end: (s.v_end + 1) as u64, ..s })
    }
}

/// The first `k` declarations: each variable placed with its starting value.
pub open spec fn decls(s: RunV, values: Seq<TyV>, k: nat) -> Option<RunV>
    decreases k,
{
    if k == 0 {
        Some(s)
    } else {
        match decls(s, values, (k - 1) as nat) {
            Some(p) => match default_of(values[k - 1]) {
                Some(d) => place(p, d),
                None => None,
            },
            None => None,
        }
    }
}

/// The first `k` arguments of a call: each read and placed.
pub open spec fn call_args(s: RunV, args: Seq<VarV>, env: EnvV, k: nat) -> Option<RunV>
    decreases k,
{
    if k == 0 {
        Some(s)
    } else {
        match call_args(s, args, env, (k - 1) as nat) {
            Some(p) => match get_value(p, args[k - 1], env) {
                GetV::Got(p2, v) => place(p2, v),
                GetV::Stuck => None,
            },
            None => None,
        }
    }
}

/// One step of the interpreter: the command at the instruction pointer runs, with the
/// pointer already past it. An assignment stores the right side's value at the left
/// side's place; a jump moves the pointer; a conditional jump moves it when its
/// condition holds; declarations place starting values; a call saves a frame, places
/// the arguments after the current variables, starts a range there and jumps, noting
/// where the result goes; a return reads its value, restores the caller's frame and
/// stores the value where the call said; a return from the outermost frame halts.
pub open spec fn step(s: RunV, env: EnvV) -> StepV {
    if s.ip >= env.cmds.len() || s.ip + 1 > u64::MAX {
        StepV::Stuck
    } else {
        cmd_step(RunV { ip: (s.ip + 1) as u64, ..s }, env.cmds[s.ip as int], env)
    }
}

/// The effect of command `c`, the instruction pointer already past it (see `step`).
#[verifier::opaque]
pub open spec fn cmd_step(s0: RunV, c: CmdV, env: EnvV) -> StepV {
    {
        match c {
            CmdV::Binop { l, r, out, op } => binop_step(s0, l, r, out, op, env),
            CmdV::Assign { l, r } => if !var_type_ok(l, env.table) {
                StepV::Stuck
            } else {
                match get_value(s0, r, env) {
                    GetV::Stuck => StepV::Stuck,
                    GetV::Got(s1, v) => match get_l_value(s1, l, env) {
                        Res::Stuck => StepV::Stuck,
                        Res::Fail(s2, m) => StepV::Step(s2, Err(m)),
                        Res::Done(s2, at) => StepV::Step(write(s2, at, v), Ok(OutcomeV::Continue)),
                    },
                }
            },
            CmdV::Jmp { to_idx, .. } => StepV::Step(RunV { ip: to_idx as u64, ..s0 }, Ok(OutcomeV::Continue)),
            CmdV::JmpCond { cond, to_idx, .. } => match get_bool(s0, cond, env) {
                Res::Stuck => StepV::Stuck,
                Res::Fail(s1, m) => StepV::Step(s1, Err(m)),
                Res::Done(s1, b) => StepV::Step(
                    if b {
                        RunV { ip: to_idx as u64, ..s1 }
                    } else {
                        s1
                    },
                    Ok(OutcomeV::Continue),
                ),
            },
            CmdV::DeclareVariables { values } => match decls(s0, values, values.len()) {
                Some(s1) => StepV::Step(s1, Ok(OutcomeV::Continue)),
                None => StepV::Stuck,
            },
            CmdV::Call { to_call, returned, args } => match to_call {
                VarV::FunctionLiteral { idx, .. } => {
                    let f = FrameV { ip: s0.ip, v_start: s0.v_start, v_end: s0.v_end, to_return: s0.to_return };
                    let s1 = RunV { to_return: None, ..s0 };
                    match call_args(s1, args, env, args.len()) {
                        Some(s2) => StepV::Step(
                            RunV {
                                ip: idx as u64,
                                v_start: s1.v_end,
                                frames: s2.frames.push(f),
                                to_return: if returned != VarV::Unit {
                                    Some(returned)
                                } else {
                                    None
                                },
                                ..s2
                            },
                            Ok(OutcomeV::Continue),
                        ),
                        None => StepV::Stuck,
                    }
                },
                _ => StepV::Stuck,
            },
            CmdV::Return { to_return } => if s0.frames.len() == 0 {
                match get_value(s0, to_return, env) {
                    GetV::Got(s1, v) => StepV::Step(RunV { done: true, ..s1 }, Ok(OutcomeV::Exited(v))),
                    GetV::Stuck => StepV::Stuck,
                }
            } else {
                let base = s0.frames.last();
                let s1 = RunV { frames: s0.frames.drop_last(), ..s0 };
                match get_value(s1, to_return, env) {
                    GetV::Stuck => StepV::Stuck,
                    GetV::Got(s2, rv) => {
                        let s3 = RunV { ip: base.ip, v_start: base.v_start, v_end: base.v_end, ..s2 };
                        match s3.to_return {
                            None => StepV::Step(RunV { to_return: base.to_return, ..s3 }, Ok(OutcomeV::Continue)),
                            Some(ret) => match get_l_value(RunV { to_return: None, ..s3 }, ret, env) {
                                Res::Done(s5, at) => StepV::Step(
                                    RunV { to_return: base.to_return, ..write(s5, at, rv) },
                                    Ok(OutcomeV::Continue),
                                ),
                                _ => StepV::Stuck,
                            },
                        }
                    },
                }
            },
        }
    }
}

pub(crate) fn int_arith_exec(op: Binop, a: i64, b: i64) -> (r: Option<i64>)
    ensures
        r == int_arith(op, a, b),
{
    match op {
        Binop::Add => a.checked_add(b),
        Binop::Sub => a.checked_sub(b),
        Binop::Mul => a.checked_mul(b),
        Binop::Div => a.checked_div(b),
        _ => None,
    }
}

fn is_bool_type(t: &Type) -> (r: bool)
    ensures
        r == (t@ == TyV::Bool),
{
    match t {
        Type::Bool => true,
        _ => false,
    }
}

fn is_string_type(t: &Type) -> (r: bool)
    ensures
        r == (t@ == TyV::String),
{
    match t {
        Type::String => true,
        _ => false,
    }
}

fn repeat_exec(s: &String, n: i64) -> (r: String)
    requires
        n >= 0,
    ensures
        r@ == repeat(s@, n as nat),
{
    let mut out = String::new();
    let mut i: i64 = 0;
    assert(out@ =~= repeat(s@, 0));
    while i < n
        invariant
            0 <= i <= n,
            out@ == repeat(s@, i as nat),
        decreases n - i,
    {
        push_str(&mut out, s.as_str());
        i += 1;
    }
    out
}

impl Machine {
    fn place_value(&mut self, v: Value)
        requires
            old(self).wf(),
            place(old(self).run_view(), v@) is Some,
        ensures
            final(self).symbol_table == old(self).symbol_table,
            final(self).wf(),
            final(self).env() == old(self).env(),
            final(self).run_view() == place(old(self).run_view(), v@)->0,
    {
        let ghost vv = v@;
        if self.stack.len() as u64 > self.v_end + 1 {
            self.stack.set(self.v_end as usize, v);
            assert(values_view(self.stack@) =~= values_view(old(self).stack@).update(old(self).v_end as int, vv));
        } else {
            self.stack.push(v);
            assert(values_view(self.stack@) =~= values_view(old(self).stack@).push(vv));
        }
        self.v_end = self.v_end + 1;
        assert(self.run_view() =~= place(old(self).run_view(), vv)->0);
    }

    fn finish_write(&mut self, at: Loc, v: Value) -> (r: Result<Step, String>)
        requires
            old(self).wf(),
            loc_ok(old(self).run_view(), at),
        ensures
            final(self).symbol_table == old(self).symbol_table,
            final(self).wf(),
            final(self).env() == old(self).env(),
            final(self).run_view() == write(old(self).run_view(), at, v@),
            r is Ok && step_view(r->Ok_0) == OutcomeV::Continue,
    {
        self.store(at, v);
        Ok(Step::Continue)
    }
}

impl Machine {
    #[verifier::rlimit(40)]
    fn binop(&mut self, l: &Var, r: &Var, out: &Var, op: Binop) -> (res: Result<Step, String>)
        requires
            old(self).wf(),
            !(binop_step(old(self).run_view(), l@, r@, out@, op, old(self).env()) is Stuck),
        ensures
            final(self).symbol_table == old(self).symbol_table,
            final(self).wf(),
            final(self).env() == old(self).env(),
            match binop_step(old(self).run_view(), l@, r@, out@, op, old(self).env()) {
                StepV::Step(s, Ok(o)) => final(self).run_view() == s && res is Ok && step_view(res->Ok_0) == o,
                StepV::Step(s, Err(m)) => final(self).run_view() == s && res is Err && res->Err_0@ == m,
                StepV::Stuck => false,
            },
    {
        let ghost env = self.env();
        let ghost s0 = self.run_view();
        let lt = l.get_type(self.type_table.as_slice());
        let ot = out.get_type(self.type_table.as_slice());
        match &lt {
            Type::Void => {
                proof {
                    reveal_strlit("binop not supported on void");
                }
                Err(String::from_str("binop not supported on void"))
            },
            Type::Integer => {
                let a = self.get_int(l)?;
                let b = self.get_int(r)?;
                let at = self.get_l_value(out)?;
                proof {
                    reveal_strlit("and not supported on integers");
                    reveal_strlit("or not supported on integers");
                }
                match op {
                    Binop::And => Err(String::from_str("and not supported on integers")),
                    Binop::Or => Err(String::from_str("or not supported on integers")),
                    Binop::Add | Binop::Sub | Binop::Mul | Binop::Div => {
                        let same = crate::beam::mach::same_ty(&lt, &ot);
                        if !same {
                            assert(false);
                        }
                        let v = int_arith_exec(op, a, b).unwrap();
                        self.finish_write(at, Value::Integer { v })
                    },
                    _ => {
                        if !is_bool_type(&ot) {
                            assert(false);
                        }
                        let v = match op {
                            Binop::Equal => a == b,
                            Binop::NotEqual => a != b,
                            Binop::Less => a < b,
                            _ => a > b,
                        };
                        self.finish_write(at, Value::Bool { v })
                    },
                }
            },
            Type::Float => {
                let a = self.get_float(l)?;
                let b = self.get_float(r)?;
                let at = self.get_l_value(out)?;
                proof {
                    reveal_strlit("and not supported on floats");
                    reveal_strlit("or not supported on floats");
                }
                match op {
                    Binop::And => Err(String::from_str("and not supported on floats")),
                    Binop::Or => Err(String::from_str("or not supported on floats")),
                    _ => Ok(Step::Float { op, l: a, r: b, at }),
                }
            },
            Type::Bool => {
                let a = self.get_bool(l)?;
                let b = self.get_bool(r)?;
                let at = self.get_l_value(out)?;
                proof {
                    reveal_strlit(" arithmetic not supported on bools");
                }
                match op {
                    Binop::Equal | Binop::NotEqual | Binop::And | Binop::Or => {
                        if !is_bool_type(&ot) {
                            assert(false);
                        }
                        let v = match op {
                            Binop::Equal => a == b,
                            Binop::NotEqual => a != b,
                            Binop::And => a && b,
                            _ => a || b,
                        };
                        self.finish_write(at, Value::Bool { v })
                    },
                    _ => Err(String::from_str(" arithmetic not supported on bools")),
                }
            },
            Type::String => match op {
                Binop::Add => {
                    let a = self.get_string(l)?;
                    let b = self.get_string(r)?;
                    let at = self.get_l_value(out)?;
                    if !is_string_type(&ot) {
                        assert(false);
                    }
                    let mut v = a;
                    push_str(&mut v, b.as_str());
                    self.finish_write(at, Value::String { v })
                },
                Binop::Mul => {
                    let a = self.get_string(l)?;
                    let n = self.get_int(r)?;
                    let at = self.get_l_value(out)?;
                    if n < 0 || !is_string_type(&ot) {
                        assert(false);
                    }
                    let v = repeat_exec(&a, n);
                    self.finish_write(at, Value::String { v })
                },
                Binop::Equal | Binop::NotEqual => {
                    let a = self.get_string(l)?;
                    let b = self.get_string(r)?;
                    let at = self.get_l_value(out)?;
                    if !is_bool_type(&ot) {
                        assert(false);
                    }
                    let eq = str_equal(a.as_str(), b.as_str());
                    let v = match op {
                        Binop::Equal => eq,
                        _ => !eq,
                    };
                    self.finish_write(at, Value::Bool { v })
                },
                _ => {
                    assert(false);
                    Err(String::new())
                },
            },
            Type::Ptr { .. } => {
                proof {
                    reveal_strlit("binop not supported on pointers");
                }
                Err(String::from_str("binop not supported on pointers"))
            },
            _ => {
                proof {
                    reveal_strlit("binop not supported on structures");
                }
                Err(String::from_str("binop not supported on structures"))
            },
        }
    }
}

impl Machine {
    /// Runs the command at the instruction pointer (see `step`). A float operation
    /// comes back as `Step::Float`: the caller computes it and stores the result at
    /// the place given, with `store`.
    pub fn update(&mut self) -> (res: Result<Step, String>)
        requires
            old(self).wf(),
            !(step(old(self).run_view(), old(self).env()) is Stuck),
        ensures
            final(self).symbol_table == old(self).symbol_table,
            final(self).wf(),
            final(self).env() == old(self).env(),
            match step(old(self).run_view(), old(self).env()) {
                StepV::Step(s, Ok(o)) => final(self).run_view() == s && res is Ok && step_view(res->Ok_0) == o,
                StepV::Step(s, Err(m)) => final(self).run_view() == s && res is Err && res->Err_0@ == m,
                StepV::Stuck => false,
            },
    {
        let ghost env = self.env();
        let ghost s = self.run_view();
        assert(env.cmds[s.ip as int] == self.cmds@[s.ip as int]@);
        let n = self.cmds.len();
        assert(self.ip < n);
        let ins = self.cmds[self.ip as usize].clone();
        self.ip = self.ip + 1;
        assert(self.run_view() =~= RunV { ip: (s.ip + 1) as u64, ..s });
        assert(ins@ == env.cmds[s.ip as int]);
        assert(self.env() == env);
        assert(step(s, env) == cmd_step(self.run_view(), ins@, env));
        self.run_cmd(&ins)
    }

    fn run_cmd(&mut self, c: &Cmd) -> (res: Result<Step, String>)
        requires
            old(self).wf(),
            !(cmd_step(old(self).run_view(), c@, old(self).env()) is Stuck),
        ensures
            final(self).symbol_table == old(self).symbol_table,
            final(self).wf(),
            final(self).env() == old(self).env(),
            match cmd_step(old(self).run_view(), c@, old(self).env()) {
                StepV::Step(s, Ok(o)) => final(self).run_view() == s && res is Ok && step_view(res->Ok_0) == o,
                StepV::Step(s, Err(m)) => final(self).run_view() == s && res is Err && res->Err_0@ == m,
                StepV::Stuck => false,
            },
    {
        proof {
            reveal(cmd_step);
        }
        match c {
            Cmd::Binop { l, r, out, op } => self.binop(l, r, out, *op),
            Cmd::Assign { l, r } => {
                let _ = l.get_type(self.type_table.as_slice());
                let v = self.get_value(r);
                let at = self.get_l_value(l)?;
                self.finish_write(at, v)
            },
            Cmd::Jmp { to: _, to_idx } => {
                self.ip = *to_idx as u64;
                Ok(Step::Continue)
            },
            Cmd::JmpCond { cond, to: _, to_idx } => {
                let b = self.get_bool(cond)?;
                if b {
                    self.ip = *to_idx as u64;
                }
                Ok(Step::Continue)
            },
            Cmd::DeclareVariables { values } => self.declare(values),
            Cmd::Call { to_call, returned, args } => self.call(to_call, returned, args),
            Cmd::Return { to_return } => self.ret(to_return),
        }
    }

    fn declare(&mut self, values: &Vec<Type>) -> (res: Result<Step, String>)
        requires
            old(self).wf(),
            decls(old(self).run_view(), crate::beam::mach::tys_view(values@), values@.len() as nat) is Some,
        ensures
            final(self).symbol_table == old(self).symbol_table,
            final(self).wf(),
            final(self).env() == old(self).env(),
            final(self).run_view() == decls(old(self).run_view(), crate::beam::mach::tys_view(values@), values@.len() as nat)->0,
            res is Ok && step_view(res->Ok_0) == OutcomeV::Continue,
    {
        let ghost env = self.env();
        let ghost vs = crate::beam::mach::tys_view(values@);
        let ghost s0 = self.run_view();
        let mut i: usize = 0;
        while i < values.len()
            invariant
                self.symbol_table == old(self).symbol_table,
                i <= values@.len(),
                vs == crate::beam::mach::tys_view(values@),
                self.wf(),
                self.env() == env,
                env == old(self).env(),
                s0 == old(self).run_view(),
                decls(s0, vs, values@.len() as nat) is Some,
                decls(s0, vs, i as nat) == Some(self.run_view()),
            decreases values@.len() - i,
        {
            proof {
                lemma_decls_some(s0, vs, (i + 1) as nat, values@.len() as nat);
            }
            assert(vs[i as int] == values@[i as int]@);
            let d = values[i].as_default(self.type_table.as_slice()).unwrap();
            self.place_value(d);
            i += 1;
        }
        Ok(Step::Continue)
    }

    fn call(&mut self, to_call: &Var, returned: &Var, args: &Vec<Var>) -> (res: Result<Step, String>)
        requires
            old(self).wf(),
            !(cmd_step(old(self).run_view(), CmdV::Call { to_call: to_call@, returned: returned@, args: crate::beam::mach::vars_view(args@) }, old(self).env()) is Stuck),
        ensures
            final(self).symbol_table == old(self).symbol_table,
            final(self).wf(),
            final(self).env() == old(self).env(),
            match cmd_step(old(self).run_view(), CmdV::Call { to_call: to_call@, returned: returned@, args: crate::beam::mach::vars_view(args@) }, old(self).env()) {
                StepV::Step(s, Ok(o)) => final(self).run_view() == s && res is Ok && step_view(res->Ok_0) == o,
                StepV::Step(s, Err(m)) => final(self).run_view() == s && res is Err && res->Err_0@ == m,
                StepV::Stuck => false,
            },
    {
        proof {
            reveal(cmd_step);
        }
        let ghost env = self.env();
        let loc = match to_call {
            Var::FunctionLiteral { name: _, idx } => *idx,
            _ => {
                assert(false);
                0
            },
        };
        let f = Frame {
            ip: self.ip,
            v_start: self.v_start,
            v_end: self.v_end,
            to_return: self.to_return.take(),
        };
        let old_end = self.v_end;
        let ghost s1 = self.run_view();
        let ghost avs = crate::beam::mach::vars_view(args@);
        let mut i: usize = 0;
        while i < args.len()
            invariant
                self.symbol_table == old(self).symbol_table,
                i <= args@.len(),
                avs == crate::beam::mach::vars_view(args@),
                self.wf(),
                self.env() == env,
                env == old(self).env(),
                call_args(s1, avs, env, args@.len() as nat) is Some,
                call_args(s1, avs, env, i as nat) == Some(self.run_view()),
            decreases args@.len() - i,
        {
            proof {
                lemma_call_args_some(s1, avs, env, (i + 1) as nat, args@.len() as nat);
            }
            assert(avs[i as int] == args@[i as int]@);
            let v = self.get_value(&args[i]);
            self.place_value(v);
            i += 1;
        }
        let ghost fv = frame_view(f);
        let ghost s2 = self.run_view();
        self.ip = loc as u64;
        self.v_start = old_end;
        self.frames.push(f);
        let is_unit = match returned {
            Var::Unit => true,
            _ => false,
        };
        self.to_return = if !is_unit { Some(returned.clone()) } else { None };
        assert(self.frames@.map_values(|f: Frame| frame_view(f)) =~= s2.frames.push(fv));
        Ok(Step::Continue)
    }

    fn ret(&mut self, to_return: &Var) -> (res: Result<Step, String>)
        requires
            old(self).wf(),
            !(cmd_step(old(self).run_view(), CmdV::Return { to_return: to_return@ }, old(self).env()) is Stuck),
        ensures
            final(self).symbol_table == old(self).symbol_table,
            final(self).wf(),
            final(self).env() == old(self).env(),
            match cmd_step(old(self).run_view(), CmdV::Return { to_return: to_return@ }, old(self).env()) {
                StepV::Step(s, Ok(o)) => final(self).run_view() == s && res is Ok && step_view(res->Ok_0) == o,
                StepV::Step(s, Err(m)) => final(self).run_view() == s && res is Err && res->Err_0@ == m,
                StepV::Stuck => false,
            },
    {
        proof {
            reveal(cmd_step);
        }
        let ghost s0 = self.run_view();
        let ghost old_frames = self.frames@;
        match self.frames.pop() {
            None => {
                let v = self.get_value(to_return);
                self.done = true;
                Ok(Step::Exited { value: v })
            },
            Some(base) => {
                assert(self.frames@.map_values(|f: Frame| frame_view(f)) =~= s0.frames.drop_last());
                let rv = self.get_value(to_return);
                self.ip = base.ip;
                self.v_start = base.v_start;
                self.v_end = base.v_end;
                match self.to_return.take() {
                    None => {
                        self.to_return = base.to_return;
                        Ok(Step::Continue)
                    },
                    Some(ret) => {
                        match self.get_l_value(&ret) {
                            Ok(at) => {
                                self.store(at, rv);
                                self.to_return = base.to_return;
                                Ok(Step::Continue)
                            },
                            Err(_) => {
                                assert(false);
                                Err(String::new())
                            },
                        }
                    },
                }
            },
        }
    }
}

proof fn lemma_decls_some(s: RunV, values: Seq<TyV>, j: nat, k: nat)
    requires
        j <= k,
        decls(s, values, k) is Some,
    ensures
        decls(s, values, j) is Some,
    decreases k,
{
    if j < k {
        lemma_decls_some(s, values, j, (k - 1) as nat);
    }
}

proof fn lemma_call_args_some(s: RunV, args: Seq<VarV>, env: EnvV, j: nat, k: nat)
    requires
        j <= k,
        call_args(s, args, env, k) is Some,
    ensures
        call_args(s, args, env, j) is Some,
    decreases k,
{
    if j < k {
        lemma_call_args_some(s, args, env, j, (k - 1) as nat);
    }
}

/// The texts of the float constants an operand holds.
pub open spec fn var_floats(v: VarV) -> Seq<Seq<char>>
    decreases v,
{
    match v {
        VarV::ConstFloat { value } => seq![value],
        VarV::FieldAccess { of, .. } => var_floats(*of),
        _ => seq![],
    }
}

/// The texts of the float constants of the first `k` operands.
pub open spec fn vars_floats(vs: Seq<VarV>, k: nat) -> Seq<Seq<char>>
    decreases k,
{
    if k == 0 {
        seq![]
    } else {
        vars_floats(vs, (k - 1) as nat) + var_floats(vs[k - 1])
    }
}

/// The texts of the float constants a command holds, operand by operand.
pub open spec fn cmd_floats(c: CmdV) -> Seq<Seq<char>> {
    match c {
        CmdV::Binop { l, r, out, .. } => var_floats(l) + var_floats(r) + var_floats(out),
        CmdV::Assign { l, r } => var_floats(l) + var_floats(r),
        CmdV::JmpCond { cond, .. } => var_floats(cond),
        CmdV::Call { to_call, returned, args } => var_floats(to_call) + var_floats(returned) + vars_floats(args, args.len()),
        CmdV::Return { to_return } => var_floats(to_return),
        _ => seq![],
    }
}

/// The texts of the float constants of the first `k` commands.
pub open spec fn cmds_floats(cs: Seq<CmdV>, k: nat) -> Seq<Seq<char>>
    decreases k,
{
    if k == 0 {
        seq![]
    } else {
        cmds_floats(cs, (k - 1) as nat) + cmd_floats(cs[k - 1])
    }
}

fn push_var_floats(out: &mut Vec<String>, v: &Var)
    ensures
        final(out)@.map_values(|s: String| s@) == old(out)@.map_values(|s: String| s@) + var_floats(v@),
    decreases v,
{
    match v {
        Var::ConstFloat { value } => {
            out.push(value.clone());
            assert(final(out)@.map_values(|s: String| s@) =~= old(out)@.map_values(|s: String| s@) + var_floats(v@));
        },
        Var::FieldAccess { of, index, return_type } => {
            assert(v@ == (VarV::FieldAccess { of: Box::new((**of)@), index: *index, return_type: return_type@ }));
            push_var_floats(out, of);
        },
        _ => {
            assert(var_floats(v@) =~= seq![]);
            assert(final(out)@.map_values(|s: String| s@) =~= old(out)@.map_values(|s: String| s@) + var_floats(v@));
        },
    }
}

/// The texts of the float constants in the machine's commands, in order (see
/// `cmds_floats`): the caller records the bits of each in `float_consts`.
pub fn float_texts(m: &Machine) -> (r: Vec<String>)
    ensures
        r@.map_values(|s: String| s@) == cmds_floats(cmds_view(m.cmds@), m.cmds@.len() as nat),
{
    let ghost cs = cmds_view(m.cmds@);
    let mut out: Vec<String> = Vec::new();
    assert(out@.map_values(|s: String| s@) =~= seq![]);
    let mut i: usize = 0;
    while i < m.cmds.len()
        invariant
            i <= m.cmds@.len(),
            cs == cmds_view(m.cmds@),
            out@.map_values(|s: String| s@) == cmds_floats(cs, i as nat),
        decreases m.cmds@.len() - i,
    {
        let ghost before = out@.map_values(|s: String| s@);
        assert(cs[i as int] == m.cmds@[i as int]@);
        match &m.cmds[i] {
            Cmd::Binop { l, r, out: o, .. } => {
                push_var_floats(&mut out, l);
                push_var_floats(&mut out, r);
                push_var_floats(&mut out, o);
            },
            Cmd::Assign { l, r } => {
                push_var_floats(&mut out, l);
                push_var_floats(&mut out, r);
            },
            Cmd::JmpCond { cond, .. } => {
                push_var_floats(&mut out, cond);
            },
            Cmd::Call { to_call, returned, args } => {
                push_var_floats(&mut out, to_call);
                push_var_floats(&mut out, returned);
                let ghost avs = crate::beam::mach::vars_view(args@);
                let ghost mid = out@.map_values(|s: String| s@);
                let mut k: usize = 0;
                while k < args.len()
                    invariant
                        k <= args@.len(),
                        avs == crate::beam::mach::vars_view(args@),
                        out@.map_values(|s: String| s@) == mid + vars_floats(avs, k as nat),
                    decreases args@.len() - k,
                {
                    assert(avs[k as int] == args@[k as int]@);
                    push_var_floats(&mut out, &args[k]);
                    assert(mid + vars_floats(avs, (k + 1) as nat) =~= mid + vars_floats(avs, k as nat) + var_floats(avs[k as int]));
                    k += 1;
                }
            },
            Cmd::Return { to_return } => {
                push_var_floats(&mut out, to_return);
            },
            _ => {},
        }
        assert(out@.map_values(|s: String| s@) =~= before + cmd_floats(cs[i as int]));
        i += 1;
    }
    out
}

/// Reading a value changes at most the heap and its cells.
pub proof fn lemma_get_value_frame(s: RunV, v: VarV, env: EnvV)
    ensures
        get_value(s, v, env) matches GetV::Got(s1, _) ==> s1.ip == s.ip && s1.v_start == s.v_start
            && s1.v_end == s.v_end && s1.frames == s.frames && s1.stack == s.stack && s1.done == s.done,
    decreases v,
{
    match v {
        VarV::FieldAccess { of, .. } => lemma_get_value_frame(s, *of, env),
        _ => {},
    }
}

/// A conditional jump reads its condition and jumps to its target when it is true,
/// else goes on to the next command (also when the condition is not a boolean, which
/// is an error); the stack, the frames, the current range and the end flag stay as
/// they were.
pub proof fn law_cond_jump(s: RunV, env: EnvV)
    requires
        s.ip < env.cmds.len(),
        env.cmds[s.ip as int] is JmpCond,
        !(step(s, env) is Stuck),
    ensures
        ({
            let s0 = RunV { ip: (s.ip + 1) as u64, ..s };
            let c = env.cmds[s.ip as int];
            step(s, env) matches StepV::Step(s2, r) && s2.stack == s.stack && s2.frames == s.frames
                && s2.v_start == s.v_start && s2.v_end == s.v_end && s2.done == s.done && match get_bool(
                s0,
                c->JmpCond_cond,
                env,
            ) {
                Res::Done(_, b) => r is Ok && s2.ip == (if b {
                    c->JmpCond_to_idx as u64
                } else {
                    s0.ip
                }),
                Res::Fail(_, _) => r is Err && s2.ip == s0.ip,
                Res::Stuck => false,
            }
        }),
{
    reveal(cmd_step);
    let s0 = RunV { ip: (s.ip + 1) as u64, ..s };
    lemma_get_value_frame(s0, env.cmds[s.ip as int]->JmpCond_cond, env);
}

/// What an integer operation should give for left operand `a` and right operand `b`:
/// the comparisons `a == b`, `a != b`, `a < b` and `a > b`; the sums, differences and
/// products `a + b`, `a - b` and `a * b` when they fit in 64 bits.
pub open spec fn int_binop_value(op: Binop, a: i64, b: i64) -> Option<ValueV> {
    match op {
        Binop::Equal => Some(ValueV::Bool { v: a == b }),
        Binop::NotEqual => Some(ValueV::Bool { v: a != b }),
        Binop::Less => Some(ValueV::Bool { v: a < b }),
        Binop::Greater => Some(ValueV::Bool { v: a > b }),
        Binop::Add => if i64::MIN <= a + b <= i64::MAX { Some(ValueV::Integer { v: (a + b) as i64 }) } else { None },
        Binop::Sub => if i64::MIN <= a - b <= i64::MAX { Some(ValueV::Integer { v: (a - b) as i64 }) } else { None },
        Binop::Mul => if i64::MIN <= a * b <= i64::MAX { Some(ValueV::Integer { v: (a * b) as i64 }) } else { None },
        _ => None,
    }
}

/// A binary operation on integers (its left operand of integer type) whose operands
/// read as `a` (left) and `b` (right) writes `int_binop_value` of them to its output,
/// a boolean for a comparison and an integer for arithmetic, and goes on: the
/// operation is applied to the operands in their order.
pub proof fn law_int_binop(
    s0: RunV,
    l: VarV,
    r: VarV,
    out: VarV,
    op: Binop,
    env: EnvV,
    s1: RunV,
    s2: RunV,
    s3: RunV,
    a: i64,
    b: i64,
    at: Loc,
)
    requires
        var_type_ok(l, env.table),
        var_type_ok(out, env.table),
        var_type(l, env.table) == TyV::Integer,
        get_value(s0, l, env) == GetV::Got(s1, ValueV::Integer { v: a }),
        get_value(s1, r, env) == GetV::Got(s2, ValueV::Integer { v: b }),
        get_l_value(s2, out, env) == Res::Done(s3, at),
        int_binop_value(op, a, b) is Some,
        int_binop_value(op, a, b)->Some_0 is Bool ==> var_type(out, env.table) == TyV::Bool,
        int_binop_value(op, a, b)->Some_0 is Integer ==> var_type(out, env.table) == TyV::Integer,
    ensures
        cmd_step(s0, CmdV::Binop { l, r, out, op }, env) == StepV::Step(
            write(s3, at, int_binop_value(op, a, b)->Some_0),
            Ok(OutcomeV::Continue),
        ),
{
    let t = env.table;
    reveal(cmd_step);
    assert(get_int(s0, l, env) == Res::Done(s1, a));
    assert(get_int(s1, r, env) == Res::Done(s2, b));
    let k = |s3: RunV, at: Loc, a: i64, b: i64| int_finish(s3, at, op, a, b, TyV::Integer, var_type(out, t));
    assert(binop_step(s0, l, r, out, op, env) == operands(
        s0,
        get_int(s0, l, env),
        |s1: RunV| get_int(s1, r, env),
        out,
        env,
        k,
    ));
    assert(binop_step(s0, l, r, out, op, env) == int_finish(s3, at, op, a, b, TyV::Integer, var_type(out, t)));
    match op {
        Binop::Add => {
            assert(int_arith(op, a, b) == Some((a + b) as i64));
            assert(int_binop_value(op, a, b) == Some(ValueV::Integer { v: (a + b) as i64 }));
            assert(var_type(out, t) == TyV::Integer);
            assert(is_arith(op));
            assert(int_finish(s3, at, op, a, b, TyV::Integer, var_type(out, t)) == StepV::Step(
                write(s3, at, ValueV::Integer { v: (a + b) as i64 }),
                Ok(OutcomeV::Continue),
            ));
        },
        Binop::Sub => assert(int_arith(op, a, b) == Some((a - b) as i64)),
        Binop::Mul => assert(int_arith(op, a, b) == Some((a * b) as i64)),
        _ => {},
    }
}

/// A binary operation on floats whose operands read as `a` (left) and `b` (right) is
/// handed out to the caller with its operation, `a` as `l`, `b` as `r` and the output's
/// place, when its output has the operation's type (the operands' type for
/// arithmetic, a boolean for a comparison).
pub proof fn law_float_binop(
    s0: RunV,
    l: VarV,
    r: VarV,
    out: VarV,
    op: Binop,
    env: EnvV,
    s1: RunV,
    s2: RunV,
    s3: RunV,
    a: u64,
    b: u64,
    at: Loc,
)
    requires
        var_type_ok(l, env.table),
        var_type_ok(out, env.table),
        var_type(l, env.table) == TyV::Float,
        get_value(s0, l, env) == GetV::Got(s1, ValueV::Float { bits: a }),
        get_value(s1, r, env) == GetV::Got(s2, ValueV::Float { bits: b }),
        get_l_value(s2, out, env) == Res::Done(s3, at),
        (op == Binop::Add || op == Binop::Sub || op == Binop::Mul || op == Binop::Div) ==> var_type(out, env.table)
            == TyV::Float,
        (op == Binop::Equal || op == Binop::NotEqual || op == Binop::Less || op == Binop::Greater) ==> var_type(
            out,
            env.table,
        ) == TyV::Bool,
        op != Binop::And && op != Binop::Or,
    ensures
        cmd_step(s0, CmdV::Binop { l, r, out, op }, env) == StepV::Step(
            s3,
            Ok(OutcomeV::Float { op, l: a, r: b, at }),
        ),
{
    reveal(cmd_step);
    let t = env.table;
    assert(get_float(s0, l, env) == Res::Done(s1, a));
    assert(get_float(s1, r, env) == Res::Done(s2, b));
}

/// A binary operation on booleans `a` (left) and `b` (right) writes `a == b`, `a != b`,
/// `a && b` or `a || b` to its boolean output.
pub proof fn law_bool_binop(
    s0: RunV,
    l: VarV,
    r: VarV,
    out: VarV,
    op: Binop,
    env: EnvV,
    s1: RunV,
    s2: RunV,
    s3: RunV,
    a: bool,
    b: bool,
    at: Loc,
)
    requires
        var_type_ok(l, env.table),
        var_type_ok(out, env.table),
        var_type(l, env.table) == TyV::Bool,
        var_type(out, env.table) == TyV::Bool,
        get_value(s0, l, env) == GetV::Got(s1, ValueV::Bool { v: a }),
        get_value(s1, r, env) == GetV::Got(s2, ValueV::Bool { v: b }),
        get_l_value(s2, out, env) == Res::Done(s3, at),
        op == Binop::Equal || op == Binop::NotEqual || op == Binop::And || op == Binop::Or,
    ensures
        cmd_step(s0, CmdV::Binop { l, r, out, op }, env) == StepV::Step(
            write(
                s3,
                at,
                ValueV::Bool {
                    v: if op == Binop::Equal {
                        a == b
                    } else if op == Binop::NotEqual {
                        a != b
                    } else if op == Binop::And {
                        a && b
                    } else {
                        a || b
                    },
                },
            ),
            Ok(OutcomeV::Continue),
        ),
{
    reveal(cmd_step);
    assert(get_bool(s0, l, env) == Res::Done(s1, a));
    assert(get_bool(s1, r, env) == Res::Done(s2, b));
}

/// Adding strings `a` (left) and `b` (right) writes `a` followed by `b` to the string
/// output; comparing them writes `a == b` or `a != b` to the boolean output.
pub proof fn law_string_binop(
    s0: RunV,
    l: VarV,
    r: VarV,
    out: VarV,
    op: Binop,
    env: EnvV,
    s1: RunV,
    s2: RunV,
    s3: RunV,
    a: Seq<char>,
    b: Seq<char>,
    at: Loc,
)
    requires
        var_type_ok(l, env.table),
        var_type_ok(out, env.table),
        var_type(l, env.table) == TyV::String,
        get_value(s0, l, env) == GetV::Got(s1, ValueV::String { v: a }),
        get_value(s1, r, env) == GetV::Got(s2, ValueV::String { v: b }),
        get_l_value(s2, out, env) == Res::Done(s3, at),
        op == Binop::Add ==> var_type(out, env.table) == TyV::String,
        (op == Binop::Equal || op == Binop::NotEqual) ==> var_type(out, env.table) == TyV::Bool,
    ensures
        op == Binop::Add ==> cmd_step(s0, CmdV::Binop { l, r, out, op }, env) == StepV::Step(
            write(s3, at, ValueV::String { v: a + b }),
            Ok(OutcomeV::Continue),
        ),
        op == Binop::Equal ==> cmd_step(s0, CmdV::Binop { l, r, out, op }, env) == StepV::Step(
            write(s3, at, ValueV::Bool { v: a == b }),
            Ok(OutcomeV::Continue),
        ),
        op == Binop::NotEqual ==> cmd_step(s0, CmdV::Binop { l, r, out, op }, env) == StepV::Step(
            write(s3, at, ValueV::Bool { v: a != b }),
            Ok(OutcomeV::Continue),
        ),
{
    reveal(cmd_step);
    assert(get_string(s0, l, env) == Res::Done(s1, a));
    assert(get_string(s1, r, env) == Res::Done(s2, b));
}

/// An assignment to a variable stores the value of its right side there: after the
/// step, reading the variable gives that value.
pub proof fn law_assign_then_read(s0: RunV, l: VarV, r: VarV, env: EnvV, s1: RunV, v: ValueV)
    requires
        l is Stack,
        var_type_ok(l, env.table),
        get_value(s0, r, env) == GetV::Got(s1, v),
        !(get_l_value(s1, l, env) is Stuck),
    ensures
        cmd_step(s0, CmdV::Assign { l, r }, env) matches StepV::Step(s2, res) && res == Ok::<OutcomeV, Seq<char>>(
            OutcomeV::Continue,
        ) && get_value(s2, l, env) == GetV::Got(s2, v),
{
    reveal(cmd_step);
    let k = s1.v_start + l->Stack_index;
    let s2 = write(s1, Loc::Stack { at: k as usize }, v);
    assert(s2.stack[k] == v);
}

/// A jump goes to its target command and changes nothing else.
pub proof fn law_jump(s0: RunV, to: Seq<char>, to_idx: usize, env: EnvV)
    ensures
        cmd_step(s0, CmdV::Jmp { to, to_idx }, env) == StepV::Step(
            RunV { ip: to_idx as u64, ..s0 },
            Ok(OutcomeV::Continue),
        ),
{
    reveal(cmd_step);
}

} // verus!
