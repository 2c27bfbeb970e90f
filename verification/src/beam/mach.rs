//! The heap of the beam interpreter: a fixed array of value cells with a free list of
//! unused ranges. Objects are a header cell (type and size) followed by their fields.
use crate::text::str_equal;
use vstd::prelude::*;

verus! {

/// The number of cells in the heap.
pub const HEAP_CELLS: usize = 65536;

/// The first cell that can be allocated; the cells below it are never used.
pub const HEAP_START: u32 = 16;

/// A value held by a heap cell or a variable. A float is held by its IEEE-754 bit
/// pattern.
#[derive(Debug)]
#[allow(inconsistent_fields)]
pub enum Value {
    Unit,
    Integer { v: i64 },
    Float { bits: u64 },
    String { v: String },
    Bool { v: bool },
    Object { ptr: u64 },
    ObjectHeader { information: u32, size: u32 },
}

/// The heap: cell values, which cells are in use, the free ranges `[start, end)`, and
/// the (start, size) of the objects handed out (each recorded once).
#[derive(Debug)]
pub struct HeapInternal {
    pub values: Vec<Value>,
    pub tracking: Vec<bool>,
    pub free_list: Vec<(u32, u32)>,
    pub allocations: Vec<(u32, u32)>,
}

/// The runs of unused cells of `t` from `idx` on, after `acc`; `prev` is the start of
/// the run being read, or 0 when none is.
pub open spec fn runs(t: Seq<bool>, idx: int, prev: int, acc: Seq<(u32, u32)>) -> Seq<(u32, u32)>
    decreases t.len() - idx,
{
    if idx >= t.len() {
        if prev != 0 {
            acc.push((prev as u32, idx as u32))
        } else {
            acc
        }
    } else if prev != 0 {
        if t[idx] {
            runs(t, idx + 1, 0, acc.push((prev as u32, idx as u32)))
        } else {
            runs(t, idx + 1, prev, acc)
        }
    } else {
        if !t[idx] {
            runs(t, idx + 1, idx, acc)
        } else {
            runs(t, idx + 1, 0, acc)
        }
    }
}

/// The free list rebuilt from the use marks: every maximal run of unused cells from
/// `HEAP_START` on.
pub open spec fn spec_cleanup(t: Seq<bool>) -> Seq<(u32, u32)> {
    runs(t, HEAP_START as int, 0, seq![])
}

/// The index of the last free range with room for `needed` cells, or -1.
pub open spec fn last_fit(fl: Seq<(u32, u32)>, needed: int) -> int
    decreases fl.len(),
{
    if fl.len() == 0 {
        -1
    } else if fl.last().1 - fl.last().0 >= needed {
        fl.len() - 1
    } else {
        last_fit(fl.drop_last(), needed)
    }
}

/// Every free range lies in the allocatable cells and is not reversed.
pub open spec fn ranges_ok(fl: Seq<(u32, u32)>) -> bool {
    forall|i: int|
        0 <= i < fl.len() ==> HEAP_START <= (#[trigger] fl[i]).0 <= fl[i].1 <= HEAP_CELLS
}

/// The heap's model.
pub struct HeapView {
    pub values: Seq<Value>,
    pub tracking: Seq<bool>,
    pub free_list: Seq<(u32, u32)>,
    pub allocations: Set<(u32, u32)>,
}

/// The free list after `needed` cells are taken from the front of range `i`: the range
/// shrinks, or goes (the last range takes its place) when at most one cell would be left.
pub open spec fn take_from(fl: Seq<(u32, u32)>, i: int, needed: int) -> Seq<(u32, u32)> {
    if fl[i].1 - fl[i].0 - needed > 1 {
        fl.update(i, ((fl[i].0 + needed) as u32, fl[i].1))
    } else {
        fl.update(i, fl.last()).drop_last()
    }
}

/// The outcome of allocating an object of `count` fields with type header `typeheader`:
/// the last free range with room is used (after rebuilding the free list from the use
/// marks when none has room); the whole range is marked used, the header goes in its
/// first cell, and the object starts in the cell after.
pub open spec fn spec_allocate(h: HeapView, count: usize, typeheader: u32) -> (HeapView, Option<u32>) {
    let needed = (count as u32) + 1;
    let i1 = last_fit(h.free_list, needed);
    let fl = if i1 == -1 {
        spec_cleanup(h.tracking)
    } else {
        h.free_list
    };
    let i = if i1 == -1 {
        last_fit(fl, needed)
    } else {
        i1
    };
    if i == -1 {
        (HeapView { free_list: fl, ..h }, None)
    } else {
        let base = fl[i].0;
        let end = fl[i].1;
        (
            HeapView {
                values: h.values.update(
                    base as int,
                    Value::ObjectHeader { information: typeheader, size: count as u32 },
                ),
                tracking: Seq::new(
                    h.tracking.len(),
                    |k: int| if base <= k < end {
                        true
                    } else {
                        h.tracking[k]
                    },
                ),
                free_list: take_from(fl, i, needed),
                allocations: h.allocations.insert(((base + 1) as u32, count as u32)),
            },
            Some((base + 1) as u32),
        )
    }
}

/// Whether freeing the object at `start` needs the header's fields to fit in the heap
/// (it does when the cell before `start` is a used header).
pub open spec fn free_fits(h: HeapView, start: u32) -> bool {
    let base = start - 1;
    h.tracking[base] ==> match h.values[base] {
        Value::ObjectHeader { size, .. } => base + size + 1 <= HEAP_CELLS,
        _ => true,
    }
}

/// The outcome of freeing the object that starts at `start`: an error unless the cell
/// before it is a used header; otherwise the header and fields are marked unused and the
/// range goes on the free list.
pub open spec fn spec_free(h: HeapView, start: u32) -> (HeapView, Result<(), u32>) {
    let base = start - 1;
    if !h.tracking[base] {
        (h, Err(start))
    } else {
        match h.values[base] {
            Value::ObjectHeader { size, .. } => (
                HeapView {
                    tracking: Seq::new(
                        h.tracking.len(),
                        |k: int| if base <= k < base + size + 1 {
                            false
                        } else {
                            h.tracking[k]
                        },
                    ),
                    free_list: h.free_list.push((base as u32, (base + size + 1) as u32)),
                    ..h
                },
                Ok(()),
            ),
            _ => (h, Err(start)),
        }
    }
}

/// Rebuilding the free list gives well-formed ranges.
pub proof fn lemma_runs(t: Seq<bool>, idx: int, prev: int, acc: Seq<(u32, u32)>)
    requires
        t.len() == HEAP_CELLS,
        HEAP_START <= idx <= t.len(),
        prev == 0 || HEAP_START <= prev < idx,
        ranges_ok(acc),
    ensures
        ranges_ok(runs(t, idx, prev, acc)),
    decreases t.len() - idx,
{
    if idx >= t.len() {
    } else if prev != 0 {
        if t[idx] {
            lemma_runs(t, idx + 1, 0, acc.push((prev as u32, idx as u32)));
        } else {
            lemma_runs(t, idx + 1, prev, acc);
        }
    } else {
        if !t[idx] {
            lemma_runs(t, idx + 1, idx, acc);
        } else {
            lemma_runs(t, idx + 1, 0, acc);
        }
    }
}

/// The range picked by `last_fit` exists and has room.
pub proof fn lemma_last_fit(fl: Seq<(u32, u32)>, needed: int)
    ensures
        -1 <= last_fit(fl, needed) < fl.len(),
        last_fit(fl, needed) != -1 ==> fl[last_fit(fl, needed)].1 - fl[last_fit(fl, needed)].0
            >= needed,
        last_fit(fl, needed) != -1 ==> forall|j: int|
            last_fit(fl, needed) < j < fl.len() ==> fl[j].1 - fl[j].0 < needed,
        last_fit(fl, needed) == -1 ==> forall|j: int| 0 <= j < fl.len() ==> fl[j].1 - fl[j].0
            < needed,
    decreases fl.len(),
{
    if fl.len() > 0 && !(fl.last().1 - fl.last().0 >= needed) {
        let d = fl.drop_last();
        lemma_last_fit(d, needed);
        assert forall|j: int| 0 <= j < d.len() implies d[j] == fl[j] by {}
    }
}

impl HeapInternal {
    /// The heap's model.
    pub open spec fn view(&self) -> HeapView {
        HeapView {
            values: self.values@,
            tracking: self.tracking@,
            free_list: self.free_list@,
            allocations: self.allocations@.to_set(),
        }
    }

    /// The heap has its fixed size, the cells below `HEAP_START` are never used, the free
    /// ranges are well formed and no object is recorded twice.
    pub open spec fn wf(&self) -> bool {
        &&& self.values@.len() == HEAP_CELLS
        &&& self.tracking@.len() == HEAP_CELLS
        &&& forall|k: int| 0 <= k < HEAP_START ==> !self.tracking@[k]
        &&& ranges_ok(self.free_list@)
        &&& self.allocations@.no_duplicates()
    }

    /// An empty heap: every cell unused and holding integer zero, and one free range
    /// covering all allocatable cells.
    pub fn new() -> (r: Self)
        ensures
            r.wf(),
            r.view().free_list == seq![(HEAP_START, HEAP_CELLS as u32)],
            r.view().allocations == Set::<(u32, u32)>::empty(),
            forall|k: int| 0 <= k < HEAP_CELLS ==> !r.view().tracking[k],
            forall|k: int| 0 <= k < HEAP_CELLS ==> r.view().values[k] == (Value::Integer { v: 0 }),
    {
        let mut values: Vec<Value> = Vec::new();
        let mut tracking: Vec<bool> = Vec::new();
        let mut i: usize = 0;
        while i < HEAP_CELLS
            invariant
                i <= HEAP_CELLS,
                values@.len() == i,
                tracking@.len() == i,
                forall|k: int| 0 <= k < i ==> !tracking@[k],
                forall|k: int| 0 <= k < i ==> values@[k] == (Value::Integer { v: 0 }),
            decreases HEAP_CELLS - i,
        {
            values.push(Value::Integer { v: 0 });
            tracking.push(false);
            i += 1;
        }
        let mut free_list = Vec::new();
        free_list.push((HEAP_START, HEAP_CELLS as u32));
        let allocations: Vec<(u32, u32)> = Vec::new();
        assert(allocations@.to_set() =~= Set::<(u32, u32)>::empty());
        Self { values, tracking, free_list, allocations }
    }

    /// Rebuilds the free list from the use marks.
    pub fn cleanup(&mut self)
        requires
            old(self).wf(),
        ensures
            final(self).wf(),
            final(self).view() == (HeapView {
                free_list: spec_cleanup(old(self).tracking@),
                ..old(self).view()
            }),
    {
        self.free_list.clear();
        let mut prev: u32 = 0;
        let mut idx: usize = 16;
        proof {
            lemma_runs(self.tracking@, 16, 0, seq![]);
        }
        while idx < self.tracking.len()
            invariant
                self.tracking@ == old(self).tracking@,
                self.values@ == old(self).values@,
                self.allocations@ == old(self).allocations@,
                self.tracking@.len() == HEAP_CELLS,
                HEAP_START <= idx <= HEAP_CELLS,
                prev == 0 || HEAP_START <= prev < idx,
                ranges_ok(self.free_list@),
                spec_cleanup(self.tracking@) == runs(
                    self.tracking@,
                    idx as int,
                    prev as int,
                    self.free_list@,
                ),
            decreases HEAP_CELLS - idx,
        {
            proof {
                lemma_runs(self.tracking@, idx as int, prev as int, self.free_list@);
            }
            if prev != 0 {
                if self.tracking[idx] {
                    self.free_list.push((prev, idx as u32));
                    prev = 0;
                }
            } else {
                if !self.tracking[idx] {
                    prev = idx as u32;
                }
            }
            idx += 1;
        }
        if prev != 0 {
            self.free_list.push((prev, idx as u32));
        }
    }

    /// The index of the last free range with room for `needed` cells.
    fn find_last_fit(&self, needed: u32) -> (r: Option<usize>)
        requires
            ranges_ok(self.free_list@),
        ensures
            r is None <==> last_fit(self.free_list@, needed as int) == -1,
            r matches Some(i) ==> i == last_fit(self.free_list@, needed as int),
    {
        let mut idx: Option<usize> = None;
        let mut i: usize = 0;
        while i < self.free_list.len()
            invariant
                ranges_ok(self.free_list@),
                i <= self.free_list@.len(),
                idx is None <==> last_fit(self.free_list@.take(i as int), needed as int) == -1,
                idx matches Some(k) ==> k == last_fit(self.free_list@.take(i as int), needed as int),
            decreases self.free_list@.len() - i,
        {
            let ghost t = self.free_list@.take(i as int + 1);
            assert(t.drop_last() == self.free_list@.take(i as int));
            assert(t.last() == self.free_list@[i as int]);
            proof {
                lemma_last_fit(self.free_list@.take(i as int), needed as int);
            }
            if self.free_list[i].1 - self.free_list[i].0 >= needed {
                idx = Some(i);
            }
            i += 1;
        }
        assert(self.free_list@.take(i as int) == self.free_list@);
        idx
    }

    /// Allocates an object of `count` fields with type header `typeheader`; returns the
    /// cell where its fields start, or `None` when no free range has room even after the
    /// free list is rebuilt.
    pub fn allocate(&mut self, count: usize, typeheader: u32) -> (r: Option<u32>)
        requires
            old(self).wf(),
            (count as u32) < u32::MAX,
        ensures
            final(self).wf(),
            (final(self).view(), r) == spec_allocate(old(self).view(), count, typeheader),
    {
        let needed = count as u32 + 1;
        let mut base: u32 = 0;
        let mut end: u32 = 0;
        let mut idx = self.find_last_fit(needed);
        if idx.is_none() {
            self.cleanup();
            proof {
                lemma_runs(old(self).tracking@, 16, 0, seq![]);
            }
            idx = self.find_last_fit(needed);
            if idx.is_none() {
                return None;
            }
        }
        proof {
            lemma_last_fit(self.free_list@, needed as int);
        }
        let udx = match idx {
            Some(u) => u,
            None => 0,
        };
        let v = self.free_list[udx];
        base = v.0;
        end = v.1;
        let ghost t0 = self.tracking@;
        let ghost fl0 = self.free_list@;
        let ghost vals0 = self.values@;
        let ghost al0 = self.allocations@;
        let mut i = base;
        while i < end
            invariant
                self.free_list@ == fl0,
                self.values@ == vals0,
                self.allocations@ == al0,
                udx < fl0.len(),
                HEAP_START <= base <= i <= end <= HEAP_CELLS,
                self.tracking@.len() == HEAP_CELLS,
                forall|k: int|
                    0 <= k < HEAP_CELLS ==> self.tracking@[k] == if base <= k < i {
                        true
                    } else {
                        t0[k]
                    },
            decreases end - i,
        {
            self.tracking.set(i as usize, true);
            i += 1;
        }
        assert(self.tracking@ =~= Seq::new(
            t0.len(),
            |k: int| if base <= k < end {
                true
            } else {
                t0[k]
            },
        ));
        if v.1 - v.0 - needed > 1 {
            self.free_list.set(udx, (v.0 + needed, v.1));
        } else {
            self.free_list.swap_remove(udx);
        }
        self.values.set(base as usize, Value::ObjectHeader { information: typeheader, size: count as u32 });
        let entry = (base + 1, count as u32);
        let mut found = false;
        let mut j: usize = 0;
        while j < self.allocations.len()
            invariant
                j <= self.allocations@.len(),
                found == exists|k: int| 0 <= k < j && self.allocations@[k] == entry,
            decreases self.allocations@.len() - j,
        {
            if self.allocations[j].0 == entry.0 && self.allocations[j].1 == entry.1 {
                found = true;
            }
            j += 1;
        }
        assert(found == self.allocations@.contains(entry));
        let ghost a0 = self.allocations@;
        if !found {
            self.allocations.push(entry);
            assert forall|x: (u32, u32)| #[trigger] self.allocations@.to_set().contains(x) <==> a0.to_set().insert(entry).contains(x) by {
                if x == entry {
                    assert(self.allocations@[a0.len() as int] == entry);
                } else if a0.contains(x) {
                    let k = choose|k: int| 0 <= k < a0.len() && a0[k] == x;
                    assert(self.allocations@[k] == x);
                } else if self.allocations@.contains(x) {
                    let k = choose|k: int| 0 <= k < self.allocations@.len() && self.allocations@[k] == x;
                    assert(a0[k] == x);
                }
            }
            assert(self.allocations@.to_set() =~= a0.to_set().insert(entry));
        } else {
            assert(a0.to_set() =~= a0.to_set().insert(entry));
        }
        Some(base + 1)
    }

    /// Frees the object that starts at `start`; an error (with `start`) unless the cell
    /// before it is a used object header.
    pub fn free(&mut self, start: u32) -> (r: Result<(), u32>)
        requires
            old(self).wf(),
            1 <= start <= HEAP_CELLS,
            free_fits(old(self).view(), start),
        ensures
            final(self).wf(),
            (final(self).view(), r) == spec_free(old(self).view(), start),
    {
        let base = start - 1;
        if !self.tracking[base as usize] {
            return Err(start);
        }
        let size = match &self.values[base as usize] {
            Value::ObjectHeader { information: _, size } => *size,
            _ => {
                return Err(start);
            },
        };
        let ghost t0 = self.tracking@;
        let ghost fl0 = self.free_list@;
        let ghost vals0 = self.values@;
        let ghost al0 = self.allocations@;
        let mut i = base;
        while i < base + size + 1
            invariant
                self.free_list@ == fl0,
                self.values@ == vals0,
                self.allocations@ == al0,
                HEAP_START <= base <= i <= base + size + 1 <= HEAP_CELLS,
                self.tracking@.len() == HEAP_CELLS,
                forall|k: int|
                    0 <= k < HEAP_CELLS ==> self.tracking@[k] == if base <= k < i {
                        false
                    } else {
                        t0[k]
                    },
            decreases base + size + 1 - i,
        {
            self.tracking.set(i as usize, false);
            i += 1;
        }
        assert(self.tracking@ =~= Seq::new(
            t0.len(),
            |k: int| if base <= k < base + size + 1 {
                false
            } else {
                t0[k]
            },
        ));
        self.free_list.push((base, base + size + 1));
        Ok(())
    }
}

/// Freeing the object that an allocation just returned succeeds.
pub proof fn law_free_after_allocate(h: HeapView, count: usize, typeheader: u32)
    requires
        h.values.len() == HEAP_CELLS,
        h.tracking.len() == HEAP_CELLS,
        ranges_ok(h.free_list),
        (count as u32) < u32::MAX,
        spec_allocate(h, count, typeheader).1 is Some,
    ensures
        ({
            let (h2, r) = spec_allocate(h, count, typeheader);
            let p = r->Some_0;
            &&& 1 <= p <= HEAP_CELLS
            &&& free_fits(h2, p)
            &&& spec_free(h2, p).1 == Ok::<(), u32>(())
        }),
{
    let needed = (count as u32) + 1;
    lemma_last_fit(h.free_list, needed as int);
    lemma_runs(h.tracking, HEAP_START as int, 0, seq![]);
    let i1 = last_fit(h.free_list, needed as int);
    let fl = if i1 == -1 {
        spec_cleanup(h.tracking)
    } else {
        h.free_list
    };
    lemma_last_fit(fl, needed as int);
}

/// A reference to a type of the type table: the type's name and position, how many `[]`
/// it was written with, and whether values of it are held by pointer.
#[derive(Debug)]
pub struct ShallowType {
    pub name: String,
    pub index: u64,
    pub array_count: u64,
    pub is_ptr: bool,
}

/// The view of a type reference.
pub struct STV {
    pub name: Seq<char>,
    pub index: u64,
    pub array_count: u64,
    pub is_ptr: bool,
}

impl View for ShallowType {
    type V = STV;

    open spec fn view(&self) -> STV {
        STV {
            name: self.name@,
            index: self.index,
            array_count: self.array_count,
            is_ptr: self.is_ptr,
        }
    }
}

impl Clone for ShallowType {
    fn clone(&self) -> (r: Self)
        ensures
            r@ == self@,
    {
        ShallowType {
            name: self.name.clone(),
            index: self.index,
            array_count: self.array_count,
            is_ptr: self.is_ptr,
        }
    }
}

/// A type of the beam language.
#[derive(Debug)]
pub enum Type {
    Void,
    Integer,
    Float,
    Bool,
    String,
    Ptr { to: ShallowType },
    Struct { name: String, fields: Vec<(String, ShallowType)> },
    Function { from: Vec<Type>, to: Box<Type>, name: String },
}

/// The view of a type.
pub enum TyV {
    Void,
    Integer,
    Float,
    Bool,
    String,
    Ptr { to: STV },
    Struct { name: Seq<char>, fields: Seq<(Seq<char>, STV)> },
    Function { from: Seq<TyV>, to: Box<TyV>, name: Seq<char> },
}

/// The views of the fields of a structure.
pub open spec fn fields_view(f: Seq<(String, ShallowType)>) -> Seq<(Seq<char>, STV)> {
    f.map_values(|p: (String, ShallowType)| (p.0@, p.1@))
}

/// The view of a type.
pub open spec fn ty_view(t: Type) -> TyV
    decreases t,
{
    match t {
        Type::Void => TyV::Void,
        Type::Integer => TyV::Integer,
        Type::Float => TyV::Float,
        Type::Bool => TyV::Bool,
        Type::String => TyV::String,
        Type::Ptr { to } => TyV::Ptr { to: to@ },
        Type::Struct { name, fields } => TyV::Struct { name: name@, fields: fields_view(fields@) },
        Type::Function { from, to, name } => TyV::Function {
            from: Seq::new(
                from@.len(),
                |i: int|
                    if 0 <= i < from@.len() {
                        ty_view(from@[i])
                    } else {
                        TyV::Void
                    },
            ),
            to: Box::new(ty_view(*to)),
            name: name@,
        },
    }
}

impl View for Type {
    type V = TyV;

    open spec fn view(&self) -> TyV {
        ty_view(*self)
    }
}

fn copy_fields(f: &Vec<(String, ShallowType)>) -> (r: Vec<(String, ShallowType)>)
    ensures
        fields_view(r@) == fields_view(f@),
{
    let mut out: Vec<(String, ShallowType)> = Vec::new();
    let mut i: usize = 0;
    while i < f.len()
        invariant
            i <= f@.len(),
            out@.len() == i,
            forall|j: int| 0 <= j < i ==> (#[trigger] out@[j]).0@ == f@[j].0@ && out@[j].1@ == f@[j].1@,
        decreases f@.len() - i,
    {
        out.push((f[i].0.clone(), f[i].1.clone()));
        i += 1;
    }
    assert(fields_view(out@) =~= fields_view(f@));
    out
}

#[verifier::loop_isolation(false)]
fn copy_ty(t: &Type) -> (r: Type)
    ensures
        r@ == t@,
    decreases t,
{
    match t {
        Type::Void => Type::Void,
        Type::Integer => Type::Integer,
        Type::Float => Type::Float,
        Type::Bool => Type::Bool,
        Type::String => Type::String,
        Type::Ptr { to } => Type::Ptr { to: to.clone() },
        Type::Struct { name, fields } => Type::Struct { name: name.clone(), fields: copy_fields(fields) },
        Type::Function { from, to, name } => {
            let mut out: Vec<Type> = Vec::new();
            let mut i: usize = 0;
            while i < from.len()
                invariant
                    i <= from@.len(),
                    out@.len() == i,
                    forall|j: int| 0 <= j < i ==> (#[trigger] out@[j])@ == from@[j]@,
                decreases from@.len() - i,
            {
                proof {
                    assert(decreases_to!(*t => *from));
                    assert(decreases_to!(*from => from@));
                    assert(decreases_to!(from@ => from@[i as int]));
                }
                out.push(copy_ty(&from[i]));
                i += 1;
            }
            let r = Type::Function { from: out, to: Box::new(copy_ty(to)), name: name.clone() };
            assert(r@->Function_from =~= t@->Function_from);
            r
        },
    }
}

impl Clone for Type {
    fn clone(&self) -> (r: Self)
        ensures
            r@ == self@,
    {
        copy_ty(self)
    }
}

/// Whether two types are equal (`==` on types).
#[verifier::loop_isolation(false)]
pub fn same_ty(a: &Type, b: &Type) -> (r: bool)
    ensures
        r == (a@ == b@),
    decreases a,
{
    match (a, b) {
        (Type::Void, Type::Void) => true,
        (Type::Integer, Type::Integer) => true,
        (Type::Float, Type::Float) => true,
        (Type::Bool, Type::Bool) => true,
        (Type::String, Type::String) => true,
        (Type::Ptr { to: x }, Type::Ptr { to: y }) => same_shallow(x, y),
        (Type::Struct { name: n1, fields: f1 }, Type::Struct { name: n2, fields: f2 }) => {
            if !str_equal(n1.as_str(), n2.as_str()) || f1.len() != f2.len() {
                assert(a@->Struct_fields.len() == f1@.len());
                assert(b@->Struct_fields.len() == f2@.len());
                return false;
            }
            let mut i: usize = 0;
            while i < f1.len()
                invariant
                    i <= f1@.len(),
                    f1@.len() == f2@.len(),
                    forall|j: int| 0 <= j < i ==> #[trigger] fields_view(f1@)[j] == fields_view(f2@)[j],
                decreases f1@.len() - i,
            {
                if !str_equal(f1[i].0.as_str(), f2[i].0.as_str()) || !same_shallow(&f1[i].1, &f2[i].1) {
                    assert(fields_view(f1@)[i as int] != fields_view(f2@)[i as int]);
                    return false;
                }
                i += 1;
            }
            assert(fields_view(f1@) =~= fields_view(f2@));
            true
        },
        (Type::Function { from: x1, to: t1, name: n1 }, Type::Function { from: x2, to: t2, name: n2 }) => {
            if !str_equal(n1.as_str(), n2.as_str()) || x1.len() != x2.len() {
                assert(a@->Function_from.len() == x1@.len());
                assert(b@->Function_from.len() == x2@.len());
                return false;
            }
            if !same_ty(t1, t2) {
                return false;
            }
            let mut i: usize = 0;
            while i < x1.len()
                invariant
                    i <= x1@.len(),
                    x1@.len() == x2@.len(),
                    forall|j: int| 0 <= j < i ==> (#[trigger] x1@[j])@ == x2@[j]@,
                decreases x1@.len() - i,
            {
                proof {
                    assert(decreases_to!(*a => *x1));
                    assert(decreases_to!(*x1 => x1@));
                    assert(decreases_to!(x1@ => x1@[i as int]));
                }
                if !same_ty(&x1[i], &x2[i]) {
                    assert(a@->Function_from[i as int] != b@->Function_from[i as int]);
                    return false;
                }
                i += 1;
            }
            assert(a@->Function_from =~= b@->Function_from);
            true
        },
        _ => false,
    }
}

/// Whether two type references are equal.
pub fn same_shallow(a: &ShallowType, b: &ShallowType) -> (r: bool)
    ensures
        r == (a@ == b@),
{
    str_equal(a.name.as_str(), b.name.as_str()) && a.index == b.index && a.array_count
        == b.array_count && a.is_ptr == b.is_ptr
}

impl Type {
    /// The primitive types: void, int, float, bool and string.
    pub fn is_primitive(&self) -> (r: bool)
        ensures
            r == (self@ is Void || self@ is Integer || self@ is Float || self@ is Bool
                || self@ is String),
    {
        match self {
            Self::Void => true,
            Self::Integer => true,
            Self::Float => true,
            Self::Bool => true,
            Self::String => true,
            _ => false,
        }
    }
}

/// The views of a type table.
pub open spec fn table_view(t: Seq<(String, Type)>) -> Seq<(Seq<char>, TyV)> {
    t.map_values(|p: (String, Type)| (p.0@, p.1@))
}

/// The type that a reference stands for: a pointer to the referenced type (with the
/// pointer mark cleared) when marked as a pointer, else the table's entry.
pub open spec fn st_type(s: STV, table: Seq<(Seq<char>, TyV)>) -> TyV {
    if s.is_ptr {
        TyV::Ptr { to: STV { is_ptr: false, ..s } }
    } else {
        table[s.index as int].1
    }
}

/// A reference can be resolved: it is a pointer, or its position is in the table.
pub open spec fn st_ok(s: STV, table: Seq<(Seq<char>, TyV)>) -> bool {
    s.is_ptr || s.index < table.len()
}

impl ShallowType {
    /// The type that the reference stands for (see `st_type`).
    pub fn as_type(&self, type_table: &[(String, Type)]) -> (r: Type)
        requires
            st_ok(self@, table_view(type_table@)),
        ensures
            r@ == st_type(self@, table_view(type_table@)),
    {
        if self.is_ptr {
            let mut tmp = self.clone();
            tmp.is_ptr = false;
            Type::Ptr { to: tmp }
        } else {
            assert(table_view(type_table@)[self.index as int] == (type_table@[self.index as int].0@, type_table@[self.index as int].1@));
            type_table[self.index as usize].1.clone()
        }
    }
}

/// An operand of a command.  A floating-point constant is kept as the text it was
/// written with, text that `f64::from_str` accepts.
#[derive(Debug)]
pub enum Var {
    Stack { vtype: ShallowType, index: usize, name: String },
    ConstInt { value: i64 },
    ConstFloat { value: String },
    ConstString { value: String },
    ConstBool { value: bool },
    Unit,
    FieldAccess { of: Box<Var>, index: usize, return_type: ShallowType },
    FunctionLiteral { name: String, idx: usize },
    OperatorNew { new_type: ShallowType },
}

/// The view of an operand.
pub enum VarV {
    Stack { vtype: STV, index: usize, name: Seq<char> },
    ConstInt { value: i64 },
    ConstFloat { value: Seq<char> },
    ConstString { value: Seq<char> },
    ConstBool { value: bool },
    Unit,
    FieldAccess { of: Box<VarV>, index: usize, return_type: STV },
    FunctionLiteral { name: Seq<char>, idx: usize },
    OperatorNew { new_type: STV },
}

/// The view of an operand.
pub open spec fn var_view(v: Var) -> VarV
    decreases v,
{
    match v {
        Var::Stack { vtype, index, name } => VarV::Stack { vtype: vtype@, index, name: name@ },
        Var::ConstInt { value } => VarV::ConstInt { value },
        Var::ConstFloat { value } => VarV::ConstFloat { value: value@ },
        Var::ConstString { value } => VarV::ConstString { value: value@ },
        Var::ConstBool { value } => VarV::ConstBool { value },
        Var::Unit => VarV::Unit,
        Var::FieldAccess { of, index, return_type } => VarV::FieldAccess {
            of: Box::new(var_view(*of)),
            index,
            return_type: return_type@,
        },
        Var::FunctionLiteral { name, idx } => VarV::FunctionLiteral { name: name@, idx },
        Var::OperatorNew { new_type } => VarV::OperatorNew { new_type: new_type@ },
    }
}

impl View for Var {
    type V = VarV;

    open spec fn view(&self) -> VarV {
        var_view(*self)
    }
}

fn copy_var(v: &Var) -> (r: Var)
    ensures
        r@ == v@,
    decreases v,
{
    match v {
        Var::Stack { vtype, index, name } => Var::Stack {
            vtype: vtype.clone(),
            index: *index,
            name: name.clone(),
        },
        Var::ConstInt { value } => Var::ConstInt { value: *value },
        Var::ConstFloat { value } => Var::ConstFloat { value: value.clone() },
        Var::ConstString { value } => Var::ConstString { value: value.clone() },
        Var::ConstBool { value } => Var::ConstBool { value: *value },
        Var::Unit => Var::Unit,
        Var::FieldAccess { of, index, return_type } => Var::FieldAccess {
            of: Box::new(copy_var(of)),
            index: *index,
            return_type: return_type.clone(),
        },
        Var::FunctionLiteral { name, idx } => Var::FunctionLiteral { name: name.clone(), idx: *idx },
        Var::OperatorNew { new_type } => Var::OperatorNew { new_type: new_type.clone() },
    }
}

impl Clone for Var {
    fn clone(&self) -> (r: Self)
        ensures
            r@ == self@,
    {
        copy_var(self)
    }
}

/// The type of a reference, as an operand sees it (see `st_type`).
pub open spec fn ref_type(s: STV, table: Seq<(Seq<char>, TyV)>) -> TyV {
    st_type(s, table)
}

/// The type of an operand: a variable's or field's declared type (resolved in the
/// table), the constant's type, a function type for a function literal, a pointer for
/// `new`.
pub open spec fn var_type(v: VarV, table: Seq<(Seq<char>, TyV)>) -> TyV {
    match v {
        VarV::Stack { vtype, .. } => ref_type(vtype, table),
        VarV::ConstInt { .. } => TyV::Integer,
        VarV::ConstFloat { .. } => TyV::Float,
        VarV::ConstString { .. } => TyV::String,
        VarV::ConstBool { .. } => TyV::Bool,
        VarV::Unit => TyV::Void,
        VarV::FieldAccess { return_type, .. } => ref_type(return_type, table),
        VarV::FunctionLiteral { name, .. } => TyV::Function {
            from: seq![],
            to: Box::new(TyV::Void),
            name,
        },
        VarV::OperatorNew { new_type } => TyV::Ptr { to: new_type },
    }
}

/// The operand's type can be computed: the references it resolves are in the table.
pub open spec fn var_type_ok(v: VarV, table: Seq<(Seq<char>, TyV)>) -> bool {
    match v {
        VarV::Stack { vtype, .. } => st_ok(vtype, table),
        VarV::FieldAccess { return_type, .. } => st_ok(return_type, table),
        _ => true,
    }
}

impl Var {
    /// The operand's type (see `var_type`).
    pub fn get_type(&self, type_table: &[(String, Type)]) -> (r: Type)
        requires
            var_type_ok(self@, table_view(type_table@)),
        ensures
            r@ == var_type(self@, table_view(type_table@)),
    {
        match self {
            Var::Stack { vtype, index, name } => {
                assert(self@ == (VarV::Stack { vtype: vtype@, index: *index, name: name@ }));
                let r = vtype.as_type(type_table);
                assert(r@ == st_type(vtype@, table_view(type_table@)));
                assert(var_type(self@, table_view(type_table@)) == st_type(vtype@, table_view(type_table@)));
                r
            },
            Var::ConstInt { value: _ } => Type::Integer,
            Var::ConstFloat { value: _ } => Type::Float,
            Var::ConstString { value: _ } => Type::String,
            Var::ConstBool { value: _ } => Type::Bool,
            Var::Unit => Type::Void,
            Var::FieldAccess { of: _, index: _, return_type } => return_type.as_type(type_table),
            Var::FunctionLiteral { name, idx: _ } => {
                let r = Type::Function {
                    from: Vec::new(),
                    to: Box::new(Type::Void),
                    name: name.clone(),
                };
                assert(r@->Function_from =~= seq![]);
                r
            },
            Var::OperatorNew { new_type } => Type::Ptr { to: new_type.clone() },
        }
    }
}

/// The binary operations of commands.
#[derive(Clone, Copy, Debug, PartialEq, Eq, Structural)]
pub enum Binop {
    Add,
    Sub,
    Mul,
    Div,
    Equal,
    NotEqual,
    Less,
    Greater,
    And,
    Or,
}

/// A command of a beam function.
#[derive(Debug)]
pub enum Cmd {
    Binop { l: Var, r: Var, out: Var, op: Binop },
    Assign { l: Var, r: Var },
    Jmp { to: String, to_idx: usize },
    JmpCond { cond: Var, to: String, to_idx: usize },
    DeclareVariables { values: Vec<Type> },
    Call { to_call: Var, returned: Var, args: Vec<Var> },
    Return { to_return: Var },
}

/// The view of a command.
pub enum CmdV {
    Binop { l: VarV, r: VarV, out: VarV, op: Binop },
    Assign { l: VarV, r: VarV },
    Jmp { to: Seq<char>, to_idx: usize },
    JmpCond { cond: VarV, to: Seq<char>, to_idx: usize },
    DeclareVariables { values: Seq<TyV> },
    Call { to_call: VarV, returned: VarV, args: Seq<VarV> },
    Return { to_return: VarV },
}

/// The views of a list of operands.
pub open spec fn vars_view(v: Seq<Var>) -> Seq<VarV> {
    v.map_values(|x: Var| x@)
}

/// The views of a list of types.
pub open spec fn tys_view(v: Seq<Type>) -> Seq<TyV> {
    v.map_values(|x: Type| x@)
}

impl View for Cmd {
    type V = CmdV;

    open spec fn view(&self) -> CmdV {
        match self {
            Cmd::Binop { l, r, out, op } => CmdV::Binop { l: l@, r: r@, out: out@, op: *op },
            Cmd::Assign { l, r } => CmdV::Assign { l: l@, r: r@ },
            Cmd::Jmp { to, to_idx } => CmdV::Jmp { to: to@, to_idx: *to_idx },
            Cmd::JmpCond { cond, to, to_idx } => CmdV::JmpCond {
                cond: cond@,
                to: to@,
                to_idx: *to_idx,
            },
            Cmd::DeclareVariables { values } => CmdV::DeclareVariables { values: tys_view(values@) },
            Cmd::Call { to_call, returned, args } => CmdV::Call {
                to_call: to_call@,
                returned: returned@,
                args: vars_view(args@),
            },
            Cmd::Return { to_return } => CmdV::Return { to_return: to_return@ },
        }
    }
}

/// Copies of a list of operands.
pub fn copy_vars(v: &Vec<Var>) -> (r: Vec<Var>)
    ensures
        vars_view(r@) == vars_view(v@),
{
    let mut out: Vec<Var> = Vec::new();
    let mut i: usize = 0;
    while i < v.len()
        invariant
            i <= v@.len(),
            out@.len() == i,
            forall|j: int| 0 <= j < i ==> (#[trigger] out@[j])@ == v@[j]@,
        decreases v@.len() - i,
    {
        out.push(v[i].clone());
        i += 1;
    }
    assert(vars_view(out@) =~= vars_view(v@));
    out
}

/// Copies of a list of types.
pub fn copy_tys(v: &Vec<Type>) -> (r: Vec<Type>)
    ensures
        tys_view(r@) == tys_view(v@),
{
    let mut out: Vec<Type> = Vec::new();
    let mut i: usize = 0;
    while i < v.len()
        invariant
            i <= v@.len(),
            out@.len() == i,
            forall|j: int| 0 <= j < i ==> (#[trigger] out@[j])@ == v@[j]@,
        decreases v@.len() - i,
    {
        out.push(v[i].clone());
        i += 1;
    }
    assert(tys_view(out@) =~= tys_view(v@));
    out
}

impl Clone for Cmd {
    fn clone(&self) -> (r: Self)
        ensures
            r@ == self@,
    {
        match self {
            Cmd::Binop { l, r, out, op } => Cmd::Binop {
                l: l.clone(),
                r: r.clone(),
                out: out.clone(),
                op: *op,
            },
            Cmd::Assign { l, r } => Cmd::Assign { l: l.clone(), r: r.clone() },
            Cmd::Jmp { to, to_idx } => Cmd::Jmp { to: to.clone(), to_idx: *to_idx },
            Cmd::JmpCond { cond, to, to_idx } => Cmd::JmpCond {
                cond: cond.clone(),
                to: to.clone(),
                to_idx: *to_idx,
            },
            Cmd::DeclareVariables { values } => Cmd::DeclareVariables { values: copy_tys(values) },
            Cmd::Call { to_call, returned, args } => Cmd::Call {
                to_call: to_call.clone(),
                returned: returned.clone(),
                args: copy_vars(args),
            },
            Cmd::Return { to_return } => Cmd::Return { to_return: to_return.clone() },
        }
    }
}

/// The views of a list of commands.
pub open spec fn cmds_view(v: Seq<Cmd>) -> Seq<CmdV> {
    v.map_values(|c: Cmd| c@)
}

/// A beam function: its arguments, result type, commands, labels (positions of
/// commands) and name.
#[derive(Debug)]
pub struct Function {
    pub arguments: Vec<(String, ShallowType)>,
    pub return_type: ShallowType,
    pub cmds: Vec<Cmd>,
    pub labels: crate::table::Table<usize>,
    pub display_name: String,
}

/// The view of a function.
pub struct FunctionV {
    pub arguments: Seq<(Seq<char>, STV)>,
    pub return_type: STV,
    pub cmds: Seq<CmdV>,
    pub labels: Map<Seq<char>, usize>,
    pub display_name: Seq<char>,
}

impl View for Function {
    type V = FunctionV;

    open spec fn view(&self) -> FunctionV {
        FunctionV {
            arguments: fields_view(self.arguments@),
            return_type: self.return_type@,
            cmds: cmds_view(self.cmds@),
            labels: self.labels.map(),
            display_name: self.display_name@,
        }
    }
}

impl Clone for Function {
    fn clone(&self) -> (r: Self)
        ensures
            r@ == self@,
            r.labels.seq() == self.labels.seq(),
    {
        let mut cmds: Vec<Cmd> = Vec::new();
        let mut i: usize = 0;
        while i < self.cmds.len()
            invariant
                i <= self.cmds@.len(),
                cmds@.len() == i,
                forall|j: int| 0 <= j < i ==> (#[trigger] cmds@[j])@ == self.cmds@[j]@,
            decreases self.cmds@.len() - i,
        {
            cmds.push(self.cmds[i].clone());
            i += 1;
        }
        assert(cmds_view(cmds@) =~= cmds_view(self.cmds@));
        Function {
            arguments: copy_fields(&self.arguments),
            return_type: self.return_type.clone(),
            cmds,
            labels: self.labels.copy(),
            display_name: self.display_name.clone(),
        }
    }
}

/// A parsed beam program: its type table and its functions by name.
#[derive(Debug)]
pub struct Program {
    pub types: Vec<(String, Type)>,
    pub functions: crate::table::Table<Function>,
}

/// A call frame: where to return to, the caller's variable range and where its result
/// goes.
#[derive(Debug)]
pub struct Frame {
    pub ip: u64,
    pub v_start: u64,
    pub v_end: u64,
    pub to_return: Option<Var>,
}

/// The beam interpreter's state: the linked commands, the instruction pointer, the
/// current variable range, the call frames, the heap, the type table, the symbol table
/// (positions of functions and labels), the value stack, whether it has halted, and the
/// bits of the float constants by their texts.
#[derive(Debug)]
pub struct Machine {
    pub cmds: Vec<Cmd>,
    pub ip: u64,
    pub v_start: u64,
    pub v_end: u64,
    pub frames: Vec<Frame>,
    pub to_return: Option<Var>,
    pub heap: HeapInternal,
    pub type_table: Vec<(String, Type)>,
    pub symbol_table: crate::table::Table<usize>,
    pub stack: Vec<Value>,
    pub done: bool,
    pub float_consts: crate::table::Table<u64>,
}

} // verus!
