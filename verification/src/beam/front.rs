//! The parser of beam declarations and commands: type references, structures,
//! function headers, operands and commands, read from a token cursor.
use crate::beam::mach::{
    fields_view, table_view, Binop, Cmd, CmdV, Function, Program, ShallowType, STV, TyV, Type, Var, VarV,
};
use crate::beam::parser::{texts, Token, TokenStream};
use crate::table::Table;
use crate::text::{debug_pretty, from_chars, push_str, str_equal, to_chars};
use vstd::prelude::*;

verus! {

/// What reading from a token position comes to: a panic of the reader, an error, or a
/// value and the position after it.
pub enum Reading<T> {
    Stuck,
    Refused,
    Read(T, int),
}

/// The built-in types, in the order of the type table.
pub open spec fn default_table() -> Seq<(Seq<char>, TyV)> {
    seq![
        ("int"@, TyV::Integer),
        ("float"@, TyV::Float),
        ("bool"@, TyV::Bool),
        ("string"@, TyV::String),
        ("void"@, TyV::Void),
    ]
}

/// The names of the built-in types.
pub open spec fn is_builtin_name(s: Seq<char>) -> bool {
    s == "int"@ || s == "float"@ || s == "bool"@ || s == "string"@ || s == "void"@
}

/// The built-in types: `int`, `float`, `bool`, `string` and `void`.
pub fn default_types() -> (r: Vec<(String, Type)>)
    ensures
        table_view(r@) == default_table(),
{
    let r = vec![
        (String::from_str("int"), Type::Integer),
        (String::from_str("float"), Type::Float),
        (String::from_str("bool"), Type::Bool),
        (String::from_str("string"), Type::String),
        (String::from_str("void"), Type::Void),
    ];
    assert(table_view(r@) =~= default_table());
    r
}

/// How many `[]` begin `s`, and what follows them.
pub open spec fn strip_arrays(s: Seq<char>) -> (nat, Seq<char>)
    decreases s.len(),
{
    if s.len() >= 2 && s[0] == '[' && s[1] == ']' {
        let r = strip_arrays(s.subrange(2, s.len() as int));
        (r.0 + 1, r.1)
    } else {
        (0, s)
    }
}

/// The primitive types.
pub open spec fn is_prim(t: TyV) -> bool {
    t is Void || t is Integer || t is Float || t is Bool || t is String
}

/// The position of the first entry named `name` at or after `i` (-1 if none).
pub open spec fn find_type(table: Seq<(Seq<char>, TyV)>, name: Seq<char>, i: int) -> int
    decreases table.len() - i,
{
    if i < 0 || i >= table.len() {
        -1
    } else if table[i].0 == name {
        i
    } else {
        find_type(table, name, i + 1)
    }
}

proof fn lemma_find_type(table: Seq<(Seq<char>, TyV)>, name: Seq<char>, i: int)
    requires
        0 <= i,
    ensures
        find_type(table, name, i) == -1 || (i <= find_type(table, name, i) < table.len()
            && table[find_type(table, name, i)].0 == name),
    decreases table.len() - i,
{
    if i < table.len() && table[i].0 != name {
        lemma_find_type(table, name, i + 1);
    }
}

/// The type reference that text `t` names: after its `[]` prefixes, the first type of
/// the table with that name; held by pointer unless primitive.
pub open spec fn type_ref(t: Seq<char>, table: Seq<(Seq<char>, TyV)>) -> Option<STV> {
    let (n, name) = strip_arrays(t);
    let i = find_type(table, name, 0);
    if i >= 0 {
        Some(STV { name, index: i as u64, array_count: n as u64, is_ptr: !is_prim(table[i].1) })
    } else {
        None
    }
}

/// Counts and removes the `[]` prefixes of `s` (see `strip_arrays`).
pub fn strip_array_prefixes(s: &str) -> (r: (u64, String))
    ensures
        r.0 == strip_arrays(s@).0,
        r.1@ == strip_arrays(s@).1,
{
    let v = to_chars(s);
    let n = v.len();
    let mut k: usize = 0;
    let mut c: u64 = 0;
    assert(v@.subrange(0, n as int) =~= v@);
    while k + 1 < n && v[k] == '[' && v[k + 1] == ']'
        invariant
            k <= n,
            n == v@.len(),
            c as int * 2 == k,
            strip_arrays(v@).0 == c + strip_arrays(v@.subrange(k as int, n as int)).0,
            strip_arrays(v@).1 == strip_arrays(v@.subrange(k as int, n as int)).1,
        decreases n - k,
    {
        let ghost t = v@.subrange(k as int, n as int);
        assert(t.subrange(2, t.len() as int) =~= v@.subrange(k + 2, n as int));
        k += 2;
        c += 1;
    }
    let rest = from_chars(&v.as_slice()[k..n]);
    proof {
        let t = v@.subrange(k as int, n as int);
        assert(strip_arrays(t) == (0nat, t));
    }
    (c, rest)
}

fn is_builtin(s: &str) -> (r: bool)
    ensures
        r == is_builtin_name(s@),
{
    str_equal(s, "int") || str_equal(s, "float") || str_equal(s, "bool") || str_equal(s, "string")
        || str_equal(s, "void")
}

/// Reads a type reference (see `type_ref`); an error names a type that is not in the
/// table.
pub fn parse_type(tokens: &mut TokenStream, type_table: &[(String, Type)]) -> (r: Result<ShallowType, String>)
    requires
        old(tokens).index < old(tokens).tokens@.len(),
    ensures
        final(tokens).tokens == old(tokens).tokens,
        final(tokens).index == old(tokens).index + 1,
        match type_ref(old(tokens).tokens@[old(tokens).index as int].text@, table_view(type_table@)) {
            Some(st) => r is Ok && r->Ok_0@ == st,
            None => r is Err && "unkown type:"@.is_prefix_of(r->Err_0@),
        },
{
    let ghost table = table_view(type_table@);
    let t = tokens.next().unwrap();
    let (array_count, s) = strip_array_prefixes(t.text.as_str());
    let ghost tt = t.text@;
    let mut idx: usize = 0;
    while idx < type_table.len()
        invariant
            idx <= type_table@.len(),
            table == table_view(type_table@),
            tokens.tokens == old(tokens).tokens,
            tokens.index == old(tokens).index + 1,
            tt == old(tokens).tokens@[old(tokens).index as int].text@,
            s@ == strip_arrays(tt).1,
            array_count == strip_arrays(tt).0,
            find_type(table, s@, 0) == find_type(table, s@, idx as int),
        decreases type_table@.len() - idx,
    {
        if str_equal(type_table[idx].0.as_str(), s.as_str()) {
            assert(table[idx as int].0 == type_table@[idx as int].0@);
            let p = type_table[idx].1.is_primitive();
            assert(table[idx as int].1 == type_table@[idx as int].1@);
            return Ok(ShallowType { name: s, index: idx as u64, array_count, is_ptr: !p });
        }
        assert(table[idx as int].0 == type_table@[idx as int].0@);
        idx += 1;
    }
    let mut msg = String::from_str("unkown type:");
    proof {
        reveal_strlit("unkown type:");
    }
    let d = debug_pretty(&s);
    push_str(&mut msg, d.as_str());
    assert("unkown type:"@.is_prefix_of(msg@)) by {
        assert(msg@.subrange(0, "unkown type:"@.len() as int) =~= "unkown type:"@);
    }
    Err(msg)
}

/// The type reference of a structure field written `t`: its `[]` prefixes counted, held
/// by pointer unless it names a built-in type, its position left to be resolved.
pub open spec fn field_ref(t: Seq<char>) -> STV {
    let (n, name) = strip_arrays(t);
    STV { name, index: 0, array_count: n as u64, is_ptr: !is_builtin_name(name) }
}

/// The fields of a structure body at position `i`: name and type pairs up to `end`.
pub open spec fn struct_fields(toks: Seq<Seq<char>>, i: int) -> Reading<Seq<(Seq<char>, STV)>>
    decreases toks.len() - i,
{
    if i < 0 || i >= toks.len() {
        Reading::Stuck
    } else if toks[i] == "end"@ {
        Reading::Read(seq![], i + 1)
    } else if i + 1 >= toks.len() {
        Reading::Stuck
    } else {
        match struct_fields(toks, i + 2) {
            Reading::Read(fs, e) => Reading::Read(seq![(toks[i], field_ref(toks[i + 1]))] + fs, e),
            Reading::Refused => Reading::Refused,
            Reading::Stuck => Reading::Stuck,
        }
    }
}

/// The type reference of a field (see `field_ref`).
fn read_field_type(t: &str) -> (r: ShallowType)
    ensures
        r@ == field_ref(t@),
{
    let (array_count, name) = strip_array_prefixes(t);
    let is_ptr = !is_builtin(name.as_str());
    ShallowType { index: 0, name, array_count, is_ptr }
}

/// Reads a structure: its name, then its fields up to `end` (see `struct_fields`).
pub fn parse_struct(tokens: &mut TokenStream, _type_table: &[(String, Type)]) -> (r: Result<(String, Type), String>)
    requires
        old(tokens).index < old(tokens).tokens@.len(),
        struct_fields(texts(old(tokens).tokens@), old(tokens).index + 1) is Read,
    ensures
        final(tokens).tokens == old(tokens).tokens,
        match struct_fields(texts(old(tokens).tokens@), old(tokens).index + 1) {
            Reading::Read(fs, e) => r is Ok && r->Ok_0.0@ == old(tokens).tokens@[old(tokens).index as int].text@
                && r->Ok_0.1@ == (TyV::Struct { name: r->Ok_0.0@, fields: fs })
                && final(tokens).index == e,
            _ => false,
        },
{
    let ghost toks = texts(tokens.tokens@);
    let ghost start = tokens.index + 1;
    let name = tokens.next().unwrap().text;
    let mut v: Vec<(String, ShallowType)> = Vec::new();
    proof {
        reveal_strlit("end");
        assert(fields_view(v@) =~= seq![]);
        assert(seq![] + struct_fields(toks, start)->Read_0 =~= struct_fields(toks, start)->Read_0);
    }
    loop
        invariant_except_break
            struct_fields(toks, tokens.index as int) is Read,
            struct_fields(toks, start) == Reading::Read(
                fields_view(v@) + struct_fields(toks, tokens.index as int)->Read_0,
                struct_fields(toks, tokens.index as int)->Read_1,
            ),
        invariant
            tokens.tokens == old(tokens).tokens,
            toks == texts(tokens.tokens@),
        ensures
            struct_fields(toks, start) == Reading::Read(fields_view(v@), tokens.index as int),
        decreases tokens.tokens@.len() - tokens.index,
    {
        let ghost i = tokens.index as int;
        let name1 = tokens.next().unwrap().text;
        assert(name1@ == toks[i]);
        if str_equal(name1.as_str(), "end") {
            assert(fields_view(v@) + seq![] =~= fields_view(v@));
            break;
        }
        let typ1 = tokens.next().unwrap().text;
        assert(typ1@ == toks[i + 1]);
        let ft = read_field_type(typ1.as_str());
        let ghost old_v = v@;
        v.push((name1, ft));
        proof {
            let rest = struct_fields(toks, i + 2)->Read_0;
            assert(fields_view(v@) =~= fields_view(old_v).push((toks[i], field_ref(toks[i + 1]))));
            assert(fields_view(v@) + rest =~= fields_view(old_v) + (seq![(toks[i], field_ref(toks[i + 1]))] + rest));
        }
    }
    let ghost fs = fields_view(v@);
    let t = Type::Struct { name: name.clone(), fields: v };
    assert(t@ == (TyV::Struct { name: name@, fields: fs }));
    Ok((name, t))
}

/// The arguments of a function header from position `j`: name and type pairs up to
/// `:` or the end of the tokens.
pub open spec fn header_args(toks: Seq<Seq<char>>, j: int, table: Seq<(Seq<char>, TyV)>) -> Reading<Seq<(Seq<char>, STV)>>
    decreases toks.len() - j,
{
    if j < 0 {
        Reading::Stuck
    } else if j >= toks.len() {
        Reading::Read(seq![], j)
    } else if toks[j] == ":"@ {
        Reading::Read(seq![], j + 1)
    } else if j + 1 >= toks.len() {
        Reading::Stuck
    } else {
        match type_ref(toks[j + 1], table) {
            None => Reading::Refused,
            Some(st) => match header_args(toks, j + 2, table) {
                Reading::Read(rest, e) => Reading::Read(seq![(toks[j], st)] + rest, e),
                Reading::Refused => Reading::Refused,
                Reading::Stuck => Reading::Stuck,
            },
        }
    }
}

/// The model of a function header.
pub struct HeaderV {
    pub ret: STV,
    pub name: Seq<char>,
    pub args: Seq<(Seq<char>, STV)>,
}

/// A function header at position `i`: the result type, the name, the arguments.
pub open spec fn fn_header(toks: Seq<Seq<char>>, i: int, table: Seq<(Seq<char>, TyV)>) -> Reading<HeaderV> {
    if i < 0 || i >= toks.len() {
        Reading::Stuck
    } else {
        match type_ref(toks[i], table) {
            None => Reading::Refused,
            Some(ret) => if i + 1 >= toks.len() {
                Reading::Stuck
            } else {
                match header_args(toks, i + 2, table) {
                    Reading::Read(args, e) => Reading::Read(HeaderV { ret, name: toks[i + 1], args }, e),
                    Reading::Refused => Reading::Refused,
                    Reading::Stuck => Reading::Stuck,
                }
            },
        }
    }
}

/// Reads a function header (see `fn_header`): the function it gives has no commands
/// and no labels, and is displayed under its name.
pub fn parse_fn_header(tokens: &mut TokenStream, type_table: &[(String, Type)]) -> (r: Result<(String, Function), String>)
    requires
        !(fn_header(texts(old(tokens).tokens@), old(tokens).index as int, table_view(type_table@)) is Stuck),
    ensures
        final(tokens).tokens == old(tokens).tokens,
        match fn_header(texts(old(tokens).tokens@), old(tokens).index as int, table_view(type_table@)) {
            Reading::Read(h, e) => r is Ok && r->Ok_0.0@ == h.name && r->Ok_0.1@.return_type == h.ret
                && r->Ok_0.1@.arguments == h.args && r->Ok_0.1.cmds@.len() == 0
                && r->Ok_0.1.labels.seq().len() == 0 && r->Ok_0.1.labels.wf()
                && r->Ok_0.1.display_name@ == h.name && final(tokens).index == e,
            Reading::Refused => r is Err && "unkown type:"@.is_prefix_of(r->Err_0@),
            Reading::Stuck => false,
        },
{
    let ghost toks = texts(tokens.tokens@);
    let ghost table = table_view(type_table@);
    let ghost i = tokens.index as int;
    assert(tokens.tokens@[i].text@ == toks[i]);
    let tp = parse_type(tokens, type_table)?;
    let name = tokens.next().unwrap().text;
    assert(name@ == toks[i + 1]);
    let mut args: Vec<(String, ShallowType)> = Vec::new();
    proof {
        reveal_strlit(":");
        assert(fields_view(args@) =~= seq![]);
        assert(seq![] + header_args(toks, i + 2, table)->Read_0 =~= header_args(toks, i + 2, table)->Read_0);
    }
    loop
        invariant_except_break
            !(header_args(toks, tokens.index as int, table) is Stuck),
            header_args(toks, tokens.index as int, table) is Read ==> header_args(toks, i + 2, table)
                == Reading::Read(
                fields_view(args@) + header_args(toks, tokens.index as int, table)->Read_0,
                header_args(toks, tokens.index as int, table)->Read_1,
            ),
            header_args(toks, tokens.index as int, table) is Refused ==> header_args(toks, i + 2, table) is Refused,
        invariant
            tokens.tokens == old(tokens).tokens,
            toks == texts(tokens.tokens@),
            table == table_view(type_table@),
            0 <= i && i + 1 < toks.len(),
            i == old(tokens).index,
            type_ref(toks[i], table) is Some,
            tp@ == type_ref(toks[i], table)->0,
            name@ == toks[i + 1],
        ensures
            header_args(toks, i + 2, table) == Reading::Read(fields_view(args@), tokens.index as int),
        decreases tokens.tokens@.len() - tokens.index,
    {
        let ghost j = tokens.index as int;
        let t = match tokens.next() {
            Some(t) => t,
            None => {
                assert(fields_view(args@) + seq![] =~= fields_view(args@));
                break;
            },
        };
        assert(t.text@ == toks[j]);
        if str_equal(t.text.as_str(), ":") {
            assert(fields_view(args@) + seq![] =~= fields_view(args@));
            break;
        }
        assert(tokens.tokens@[j + 1].text@ == toks[j + 1]);
        let tp1 = match parse_type(tokens, type_table) {
            Ok(x) => x,
            Err(e) => {
                assert(type_ref(toks[j + 1], table) is None);
                assert(header_args(toks, j, table) is Refused);
                return Err(e);
            },
        };
        let ghost old_a = args@;
        args.push((t.text, tp1));
        proof {
            if header_args(toks, j + 2, table) is Read {
                let rest = header_args(toks, j + 2, table)->Read_0;
                assert(fields_view(args@) =~= fields_view(old_a).push((toks[j], type_ref(toks[j + 1], table)->0)));
                assert(fields_view(args@) + rest =~= fields_view(old_a) + (seq![(toks[j], type_ref(toks[j + 1], table)->0)] + rest));
            }
        }
    }
    let f = Function {
        arguments: args,
        return_type: tp,
        cmds: Vec::new(),
        labels: Table::new(),
        display_name: name.clone(),
    };
    Ok((name, f))
}

/// What reading an operand comes to: a panic of the reader, an error, or the operand.
pub enum Outcome<T> {
    Stuck,
    Refused,
    Got(T),
}

/// `s` without its leading `"` characters.
pub open spec fn trim_front(s: Seq<char>) -> Seq<char>
    decreases s.len(),
{
    if s.len() > 0 && s[0] == '"' {
        trim_front(s.drop_first())
    } else {
        s
    }
}

/// `s` without its trailing `"` characters.
pub open spec fn trim_back(s: Seq<char>) -> Seq<char>
    decreases s.len(),
{
    if s.len() > 0 && s.last() == '"' {
        trim_back(s.drop_last())
    } else {
        s
    }
}

/// `s` without the `"` characters at either end (`str::trim_matches('"')`).
pub open spec fn trim_quotes(s: Seq<char>) -> Seq<char> {
    trim_back(trim_front(s))
}

/// The position of the first `.` in `s` (-1 if none).
pub open spec fn first_dot(s: Seq<char>, i: int) -> int
    decreases s.len() - i,
{
    if i < 0 || i >= s.len() {
        -1
    } else if s[i] == '.' {
        i
    } else {
        first_dot(s, i + 1)
    }
}

/// The model of a scope of variables: each name's slot and type.
pub open spec fn scope_view(m: Map<Seq<char>, (usize, ShallowType)>) -> Map<Seq<char>, (usize, STV)> {
    m.map_values(|p: (usize, ShallowType)| (p.0, p.1@))
}

/// The operand that `v` spells without field access: `unit`, a string literal (its
/// quotes trimmed), an integer, a float (kept as text), `true` or `false`, or a variable
/// in scope (its slot and type).
pub open spec fn simple_var(v: Seq<char>, vars: Map<Seq<char>, (usize, STV)>) -> Option<VarV> {
    if v == "unit"@ {
        Some(VarV::Unit)
    } else if v.len() > 0 && v[0] == '"' {
        Some(VarV::ConstString { value: trim_quotes(v) })
    } else if crate::number::i64_text(v) is Some {
        Some(VarV::ConstInt { value: crate::number::i64_text(v)->0 })
    } else if crate::number::float_text(v) {
        Some(VarV::ConstFloat { value: v })
    } else if v == "true"@ {
        Some(VarV::ConstBool { value: true })
    } else if v == "false"@ {
        Some(VarV::ConstBool { value: false })
    } else if vars.dom().contains(v) {
        Some(VarV::Stack { vtype: vars[v].1, index: vars[v].0, name: v })
    } else {
        None
    }
}

/// The position of the first field named `name` at or after `i` (-1 if none).
pub open spec fn find_field(fields: Seq<(Seq<char>, STV)>, name: Seq<char>, i: int) -> int
    decreases fields.len() - i,
{
    if i < 0 || i >= fields.len() {
        -1
    } else if fields[i].0 == name {
        i
    } else {
        find_field(fields, name, i + 1)
    }
}

/// The access to field `rest` of operand `base`: through a pointer to a structure, or
/// on a structure; a structure without that field is an error, any other type a panic.
pub open spec fn field_reading(base: VarV, rest: Seq<char>, table: Seq<(Seq<char>, TyV)>) -> Outcome<VarV> {
    if !crate::beam::mach::var_type_ok(base, table) {
        Outcome::Stuck
    } else {
        match crate::beam::mach::var_type(base, table) {
            TyV::Ptr { to } => if !crate::beam::mach::st_ok(to, table) {
                Outcome::Stuck
            } else {
                match crate::beam::mach::st_type(to, table) {
                    TyV::Struct { fields, .. } => {
                        let k = find_field(fields, rest, 0);
                        if k >= 0 {
                            Outcome::Got(VarV::FieldAccess { of: Box::new(base), index: k as usize, return_type: fields[k].1 })
                        } else {
                            Outcome::Stuck
                        }
                    },
                    _ => Outcome::Stuck,
                }
            },
            TyV::Struct { fields, .. } => {
                let k = find_field(fields, rest, 0);
                if k >= 0 {
                    Outcome::Got(VarV::FieldAccess { of: Box::new(base), index: k as usize, return_type: fields[k].1 })
                } else {
                    Outcome::Refused
                }
            },
            _ => Outcome::Stuck,
        }
    }
}

/// The operand that `v` spells (see `simple_var`); otherwise, when `v` holds a `.`,
/// the access to the field named by what follows the first `.`, of the operand named by
/// what precedes it (see `field_reading`).
pub open spec fn var_reading(v: Seq<char>, vars: Map<Seq<char>, (usize, STV)>, table: Seq<(Seq<char>, TyV)>) -> Outcome<VarV> {
    match simple_var(v, vars) {
        Some(x) => Outcome::Got(x),
        None => {
            let p = first_dot(v, 0);
            if p >= 0 {
                match simple_var(v.subrange(0, p), vars) {
                    Some(b) => field_reading(b, v.subrange(p + 1, v.len() as int), table),
                    None => Outcome::Refused,
                }
            } else {
                Outcome::Refused
            }
        },
    }
}

fn trim_quotes_exec(v: &Vec<char>) -> (r: String)
    ensures
        r@ == trim_quotes(v@),
{
    let n = v.len();
    let mut lo: usize = 0;
    assert(v@.subrange(0, n as int) =~= v@);
    while lo < n && v[lo] == '"'
        invariant
            lo <= n,
            n == v@.len(),
            trim_front(v@) == trim_front(v@.subrange(lo as int, n as int)),
        decreases n - lo,
    {
        assert(v@.subrange(lo as int, n as int).drop_first() =~= v@.subrange(lo + 1, n as int));
        lo += 1;
    }
    let mut hi: usize = n;
    while hi > lo && v[hi - 1] == '"'
        invariant
            lo <= hi <= n,
            n == v@.len(),
            trim_front(v@) == v@.subrange(lo as int, n as int),
            trim_back(v@.subrange(lo as int, n as int)) == trim_back(v@.subrange(lo as int, hi as int)),
        decreases hi,
    {
        assert(v@.subrange(lo as int, hi as int).drop_last() =~= v@.subrange(lo as int, hi - 1));
        hi -= 1;
    }
    from_chars(&v.as_slice()[lo..hi])
}

fn simple_var_exec(v: &String, variables: &Table<(usize, ShallowType)>) -> (r: Option<Var>)
    requires
        variables.wf(),
    ensures
        match simple_var(v@, scope_view(variables.map())) {
            Some(x) => r is Some && r->0@ == x,
            None => r is None,
        },
{
    proof {
        reveal_strlit("unit");
        reveal_strlit("true");
        reveal_strlit("false");
    }
    let chars = to_chars(v.as_str());
    if str_equal(v.as_str(), "unit") {
        return Some(Var::Unit);
    }
    if chars.len() > 0 && chars[0] == '"' {
        return Some(Var::ConstString { value: trim_quotes_exec(&chars) });
    }
    match crate::number::parse_i64(v.as_str()) {
        Some(x) => {
            return Some(Var::ConstInt { value: x });
        },
        None => {},
    }
    if crate::number::is_float_text(v.as_str()) {
        return Some(Var::ConstFloat { value: v.clone() });
    }
    if str_equal(v.as_str(), "true") {
        return Some(Var::ConstBool { value: true });
    }
    if str_equal(v.as_str(), "false") {
        return Some(Var::ConstBool { value: false });
    }
    match variables.get(v.as_str()) {
        Some(s) => {
            let r = Var::Stack { vtype: s.1.clone(), index: s.0, name: v.clone() };
            assert(r@ == (VarV::Stack { vtype: s.1@, index: s.0, name: v@ }));
            Some(r)
        },
        None => None,
    }
}

/// Reads an operand (see `var_reading`). An unknown name is refused with the message
/// `unknown var:` and the name; a structure without the field, with a message that
/// begins with `type:`.
pub fn parse_var(v: String, variables: &Table<(usize, ShallowType)>, type_table: &[(String, Type)]) -> (r: Result<Var, String>)
    requires
        variables.wf(),
        !(var_reading(v@, scope_view(variables.map()), table_view(type_table@)) is Stuck),
    ensures
        match var_reading(v@, scope_view(variables.map()), table_view(type_table@)) {
            Outcome::Got(x) => r is Ok && r->Ok_0@ == x,
            Outcome::Refused => r is Err && (if simple_var(v@, scope_view(variables.map())) is None && first_dot(v@, 0) < 0 {
                r->Err_0@ == "unknown var:"@ + v@
            } else if simple_var(v@.subrange(0, first_dot(v@, 0)), scope_view(variables.map())) is None {
                r->Err_0@ == "unknown var:"@ + v@.subrange(0, first_dot(v@, 0))
            } else {
                "type:"@.is_prefix_of(r->Err_0@)
            }),
            Outcome::Stuck => false,
        },
{
    let ghost table = table_view(type_table@);
    proof {
        reveal_strlit("unknown var:");
        reveal_strlit("type:");
    }
    match simple_var_exec(&v, variables) {
        Some(x) => {
            return Ok(x);
        },
        None => {},
    }
    let chars = to_chars(v.as_str());
    let n = chars.len();
    let mut p: usize = 0;
    while p < n && chars[p] != '.'
        invariant
            p <= n,
            n == chars@.len(),
            first_dot(chars@, 0) == first_dot(chars@, p as int),
        decreases n - p,
    {
        p += 1;
    }
    if p == n {
        let mut msg = String::from_str("unknown var:");
        push_str(&mut msg, v.as_str());
        return Err(msg);
    }
    let bst = from_chars(&chars.as_slice()[0..p]);
    let base = match simple_var_exec(&bst, variables) {
        Some(b) => b,
        None => {
            let mut msg = String::from_str("unknown var:");
            push_str(&mut msg, bst.as_str());
            return Err(msg);
        },
    };
    let rest = from_chars(&chars.as_slice()[p + 1..n]);
    let ghost rv = rest@;
    let ghost goal = var_reading(v@, scope_view(variables.map()), table);
    let ghost bv = base@;
    assert(goal == field_reading(base@, rv, table));
    let t = base.get_type(type_table);
    let fields: &Vec<(String, ShallowType)> = match &t {
        Type::Ptr { to } => {
            let ty = to.as_type(type_table);
            match ty {
                Type::Struct { name: _, fields } => {
                    let ghost fv = fields_view(fields@);
                    let ghost k = find_field(fv, rv, 0);
                    assert(goal == (if k >= 0 {
                        Outcome::Got(VarV::FieldAccess { of: Box::new(bv), index: k as usize, return_type: fv[k].1 })
                    } else {
                        Outcome::Stuck
                    }));
                    let mut idx: usize = 0;
                    while idx < fields.len()
                        invariant
                            idx <= fields@.len(),
                            fv == fields_view(fields@),
                            k == find_field(fv, rv, 0),
                            goal == var_reading(v@, scope_view(variables.map()), table),
            table == table_view(type_table@),
            bv == base@,
            goal == (if k >= 0 {
                                Outcome::Got(VarV::FieldAccess { of: Box::new(bv), index: k as usize, return_type: fv[k].1 })
                            } else {
                                Outcome::Stuck
                            }),
                            find_field(fields_view(fields@), rv, 0) == find_field(fields_view(fields@), rv, idx as int),
                            rv == rest@,
            rv == rest@,
                        decreases fields@.len() - idx,
                    {
                        assert(fields_view(fields@)[idx as int].0 == fields@[idx as int].0@);
                        if str_equal(fields[idx].0.as_str(), rest.as_str()) {
                            let r = Var::FieldAccess { of: Box::new(base), index: idx, return_type: fields[idx].1.clone() };
                            assert(fields_view(fields@)[idx as int] == (fields@[idx as int].0@, fields@[idx as int].1@));
                            assert(k == idx);
                            assert(r@ == VarV::FieldAccess { of: Box::new(bv), index: idx, return_type: fv[idx as int].1 });
                            return Ok(r);
                        }
                        assert(fields_view(fields@)[idx as int].0 != rv);
                        assert(find_field(fields_view(fields@), rv, idx as int) == find_field(fields_view(fields@), rv, idx + 1));
                        idx += 1;
                    }
                    assert(false);
                    return Err(String::new());
                },
                _ => {
                    assert(false);
                    return Err(String::new());
                },
            }
        },
        Type::Struct { name: _, fields } => fields,
        _ => {
            assert(false);
            return Err(String::new());
        },
    };
    let ghost fv = fields_view(fields@);
    let ghost k = find_field(fv, rv, 0);
    assert(goal == (if k >= 0 {
        Outcome::Got(VarV::FieldAccess { of: Box::new(bv), index: k as usize, return_type: fv[k].1 })
    } else {
        Outcome::Refused
    }));
    let mut idx: usize = 0;
    while idx < fields.len()
        invariant
            idx <= fields@.len(),
            fv == fields_view(fields@),
            k == find_field(fv, rv, 0),
            goal == var_reading(v@, scope_view(variables.map()), table),
            table == table_view(type_table@),
            bv == base@,
            goal == (if k >= 0 {
                Outcome::Got(VarV::FieldAccess { of: Box::new(bv), index: k as usize, return_type: fv[k].1 })
            } else {
                Outcome::Refused
            }),
            find_field(fields_view(fields@), rv, 0) == find_field(fields_view(fields@), rv, idx as int),
            rv == rest@,
        decreases fields@.len() - idx,
    {
        assert(fields_view(fields@)[idx as int].0 == fields@[idx as int].0@);
        if str_equal(fields[idx].0.as_str(), rest.as_str()) {
            let r = Var::FieldAccess { of: Box::new(base), index: idx, return_type: fields[idx].1.clone() };
            assert(fields_view(fields@)[idx as int] == (fields@[idx as int].0@, fields@[idx as int].1@));
            assert(k == idx);
            assert(r@ == VarV::FieldAccess { of: Box::new(bv), index: idx, return_type: fv[idx as int].1 });
            return Ok(r);
        }
        idx += 1;
    }
    let mut msg = String::from_str("type:");
    match &t {
        Type::Struct { name, fields: _ } => {
            push_str(&mut msg, debug_pretty(name).as_str());
        },
        _ => {},
    }
    push_str(&mut msg, " does not have field:");
    push_str(&mut msg, debug_pretty(&rest).as_str());
    assert(msg@.subrange(0, 5) =~= "type:"@);
    Err(msg)
}

/// What reading a command gives.
#[derive(Debug)]
pub enum ParseCommandOutput {
    Label { name: String },
    Command { cmd: Cmd },
    Declared { name: String, vt: ShallowType },
    Done,
}

/// The view of what reading a command gives.
pub enum PcoV {
    Label { name: Seq<char> },
    Command { cmd: CmdV },
    Declared { name: Seq<char>, vt: STV },
    Done,
}

impl View for ParseCommandOutput {
    type V = PcoV;

    open spec fn view(&self) -> PcoV {
        match self {
            ParseCommandOutput::Label { name } => PcoV::Label { name: name@ },
            ParseCommandOutput::Command { cmd } => PcoV::Command { cmd: cmd@ },
            ParseCommandOutput::Declared { name, vt } => PcoV::Declared { name: name@, vt: vt@ },
            ParseCommandOutput::Done => PcoV::Done,
        }
    }
}

/// What reading a command at a position comes to: a panic, an error, or the output,
/// the position after it and whether the command's first token is put back there.
pub enum CmdReading {
    Stuck,
    Refused,
    Read(PcoV, int, bool),
}

/// The arguments of a call from position `j`: operands up to `)`.
pub open spec fn call_args(
    toks: Seq<Seq<char>>,
    j: int,
    vars: Map<Seq<char>, (usize, STV)>,
    table: Seq<(Seq<char>, TyV)>,
) -> Reading<Seq<VarV>>
    decreases toks.len() - j,
{
    if j < 0 || j >= toks.len() {
        Reading::Stuck
    } else if toks[j] == ")"@ {
        Reading::Read(seq![], j + 1)
    } else {
        match var_reading(toks[j], vars, table) {
            Outcome::Got(a) => match call_args(toks, j + 1, vars, table) {
                Reading::Read(rest, e) => Reading::Read(seq![a] + rest, e),
                Reading::Refused => Reading::Refused,
                Reading::Stuck => Reading::Stuck,
            },
            Outcome::Refused => Reading::Refused,
            Outcome::Stuck => Reading::Stuck,
        }
    }
}

/// The binary operation that token `t` names.
pub open spec fn binop_of(t: Seq<char>) -> Option<Binop> {
    if t == "+"@ {
        Some(Binop::Add)
    } else if t == "-"@ {
        Some(Binop::Sub)
    } else if t == "*"@ {
        Some(Binop::Mul)
    } else if t == "/"@ {
        Some(Binop::Div)
    } else if t == "=="@ {
        Some(Binop::Equal)
    } else if t == "!="@ {
        Some(Binop::NotEqual)
    } else if t == ">"@ {
        Some(Binop::Greater)
    } else if t == "<"@ {
        Some(Binop::Less)
    } else if t == "or"@ {
        Some(Binop::Or)
    } else if t == "and"@ {
        Some(Binop::And)
    } else {
        None
    }
}

fn binop_token(t: &str) -> (r: Option<Binop>)
    ensures
        r == binop_of(t@),
{
    if str_equal(t, "+") {
        Some(Binop::Add)
    } else if str_equal(t, "-") {
        Some(Binop::Sub)
    } else if str_equal(t, "*") {
        Some(Binop::Mul)
    } else if str_equal(t, "/") {
        Some(Binop::Div)
    } else if str_equal(t, "==") {
        Some(Binop::Equal)
    } else if str_equal(t, "!=") {
        Some(Binop::NotEqual)
    } else if str_equal(t, ">") {
        Some(Binop::Greater)
    } else if str_equal(t, "<") {
        Some(Binop::Less)
    } else if str_equal(t, "or") {
        Some(Binop::Or)
    } else if str_equal(t, "and") {
        Some(Binop::And)
    } else {
        None
    }
}

/// The right side of an assignment to `v`, from position `i`: `new` and a type; a
/// call of a function by name; an operand and a binary operation and an operand; a
/// call of an operand; `new` after an operand (the type is read from the `new` token
/// itself, and the operand is assigned to); or an operand alone.
pub open spec fn assign_reading(
    toks: Seq<Seq<char>>,
    i: int,
    v: VarV,
    vars: Map<Seq<char>, (usize, STV)>,
    table: Seq<(Seq<char>, TyV)>,
) -> CmdReading {
    if i < 0 || i >= toks.len() {
        CmdReading::Stuck
    } else if toks[i] == "new"@ {
        if i + 1 >= toks.len() {
            CmdReading::Stuck
        } else {
            match type_ref(toks[i + 1], table) {
                None => CmdReading::Refused,
                Some(t) => CmdReading::Read(
                    PcoV::Command {
                        cmd: CmdV::Assign { l: v, r: VarV::OperatorNew { new_type: STV { is_ptr: false, ..t } } },
                    },
                    i + 2,
                    false,
                ),
            }
        }
    } else {
        match var_reading(toks[i], vars, table) {
            Outcome::Stuck => CmdReading::Stuck,
            Outcome::Refused => if i + 1 >= toks.len() || toks[i + 1] != "("@ {
                CmdReading::Stuck
            } else {
                match call_args(toks, i + 2, vars, table) {
                    Reading::Read(args, e) => CmdReading::Read(
                        PcoV::Command {
                            cmd: CmdV::Call {
                                to_call: VarV::FunctionLiteral { name: toks[i], idx: 0 },
                                returned: v,
                                args,
                            },
                        },
                        e,
                        false,
                    ),
                    Reading::Refused => CmdReading::Refused,
                    Reading::Stuck => CmdReading::Stuck,
                }
            },
            Outcome::Got(l) => if i + 1 >= toks.len() {
                CmdReading::Stuck
            } else {
                let op = toks[i + 1];
                if binop_of(op) is Some {
                    if i + 2 >= toks.len() {
                        CmdReading::Stuck
                    } else {
                        match var_reading(toks[i + 2], vars, table) {
                            Outcome::Got(r) => CmdReading::Read(
                                PcoV::Command { cmd: CmdV::Binop { l, r, out: v, op: binop_of(op)->0 } },
                                i + 3,
                                false,
                            ),
                            Outcome::Refused => CmdReading::Refused,
                            Outcome::Stuck => CmdReading::Stuck,
                        }
                    }
                } else if op == "("@ {
                    match call_args(toks, i + 2, vars, table) {
                        Reading::Read(args, e) => CmdReading::Read(
                            PcoV::Command { cmd: CmdV::Call { to_call: l, returned: v, args } },
                            e,
                            false,
                        ),
                        Reading::Refused => CmdReading::Refused,
                        Reading::Stuck => CmdReading::Stuck,
                    }
                } else if op == "new"@ {
                    match type_ref(op, table) {
                        None => CmdReading::Refused,
                        Some(t) => CmdReading::Read(
                            PcoV::Command { cmd: CmdV::Assign { l, r: VarV::OperatorNew { new_type: t } } },
                            i + 2,
                            false,
                        ),
                    }
                } else {
                    CmdReading::Read(PcoV::Command { cmd: CmdV::Assign { l: v, r: l } }, i + 1, false)
                }
            },
        }
    }
}

/// A command at position `i` of a function named `fname`: `end`; `return` and an
/// operand; `label` and a name; `goto` and a label; `if`, an operand, `goto` and a
/// label; an operand followed by an argument list (a call) or by `=` and a right side
/// (see `assign_reading`); or a new name, `:` and a type (a declaration; when `=`
/// follows, the name is put back to start an assignment). Label names are prefixed
/// with the function's name.
pub open spec fn cmd_reading(
    toks: Seq<Seq<char>>,
    i: int,
    vars: Map<Seq<char>, (usize, STV)>,
    table: Seq<(Seq<char>, TyV)>,
    fname: Seq<char>,
) -> CmdReading {
    if i < 0 || i >= toks.len() {
        CmdReading::Stuck
    } else {
        let s = toks[i];
        if s == "end"@ {
            CmdReading::Read(PcoV::Done, i + 1, false)
        } else if s == "return"@ {
            if i + 1 >= toks.len() {
                CmdReading::Stuck
            } else {
                match var_reading(toks[i + 1], vars, table) {
                    Outcome::Got(x) => CmdReading::Read(
                        PcoV::Command { cmd: CmdV::Return { to_return: x } },
                        i + 2,
                        false,
                    ),
                    Outcome::Refused => CmdReading::Refused,
                    Outcome::Stuck => CmdReading::Stuck,
                }
            }
        } else if s == "label"@ {
            if i + 1 >= toks.len() {
                CmdReading::Stuck
            } else {
                CmdReading::Read(PcoV::Label { name: fname + toks[i + 1] }, i + 2, false)
            }
        } else if s == "goto"@ {
            if i + 1 >= toks.len() {
                CmdReading::Stuck
            } else {
                CmdReading::Read(
                    PcoV::Command { cmd: CmdV::Jmp { to: fname + toks[i + 1], to_idx: 0 } },
                    i + 2,
                    false,
                )
            }
        } else if s == "if"@ {
            if i + 1 >= toks.len() {
                CmdReading::Stuck
            } else {
                match var_reading(toks[i + 1], vars, table) {
                    Outcome::Got(c) => if i + 3 >= toks.len() || toks[i + 2] != "goto"@ {
                        CmdReading::Stuck
                    } else {
                        CmdReading::Read(
                            PcoV::Command {
                                cmd: CmdV::JmpCond { cond: c, to: fname + toks[i + 3], to_idx: 0 },
                            },
                            i + 4,
                            false,
                        )
                    },
                    Outcome::Refused => CmdReading::Refused,
                    Outcome::Stuck => CmdReading::Stuck,
                }
            }
        } else {
            match var_reading(s, vars, table) {
                Outcome::Stuck => CmdReading::Stuck,
                Outcome::Got(v) => if i + 1 >= toks.len() {
                    CmdReading::Stuck
                } else if toks[i + 1] == "("@ {
                    match call_args(toks, i + 2, vars, table) {
                        Reading::Read(args, e) => CmdReading::Read(
                            PcoV::Command { cmd: CmdV::Call { to_call: v, returned: VarV::Unit, args } },
                            e,
                            false,
                        ),
                        Reading::Refused => CmdReading::Refused,
                        Reading::Stuck => CmdReading::Stuck,
                    }
                } else if toks[i + 1] == "="@ {
                    assign_reading(toks, i + 2, v, vars, table)
                } else {
                    CmdReading::Stuck
                },
                Outcome::Refused => if i + 1 >= toks.len() {
                    CmdReading::Stuck
                } else if toks[i + 1] != "("@ {
                    if toks[i + 1] == ":"@ && i + 2 < toks.len() {
                        match type_ref(toks[i + 2], table) {
                            None => CmdReading::Refused,
                            Some(vt) => CmdReading::Read(
                                PcoV::Declared { name: s, vt },
                                i + 3,
                                i + 3 < toks.len() && toks[i + 3] == "="@,
                            ),
                        }
                    } else {
                        CmdReading::Stuck
                    }
                } else {
                    match call_args(toks, i + 2, vars, table) {
                        Reading::Refused => CmdReading::Refused,
                        _ => CmdReading::Stuck,
                    }
                },
            }
        }
    }
}

/// Reads the arguments of a call up to `)` (see `call_args`).
fn read_call_args(tokens: &mut TokenStream, variables: &Table<(usize, ShallowType)>, type_table: &[(String, Type)]) -> (r: Result<Vec<Var>, String>)
    requires
        variables.wf(),
        !(call_args(texts(old(tokens).tokens@), old(tokens).index as int, scope_view(variables.map()), table_view(type_table@)) is Stuck),
    ensures
        final(tokens).tokens == old(tokens).tokens,
        match call_args(texts(old(tokens).tokens@), old(tokens).index as int, scope_view(variables.map()), table_view(type_table@)) {
            Reading::Read(args, e) => r is Ok && crate::beam::mach::vars_view(r->Ok_0@) == args && final(tokens).index == e,
            Reading::Refused => r is Err,
            Reading::Stuck => false,
        },
{
    let ghost toks = texts(tokens.tokens@);
    let ghost table = table_view(type_table@);
    let ghost vars = scope_view(variables.map());
    let ghost j0 = tokens.index as int;
    let mut args: Vec<Var> = Vec::new();
    proof {
        reveal_strlit(")");
        assert(crate::beam::mach::vars_view(args@) =~= seq![]);
        if call_args(toks, j0, vars, table) is Read {
            assert(seq![] + call_args(toks, j0, vars, table)->Read_0 =~= call_args(toks, j0, vars, table)->Read_0);
        }
    }
    loop
        invariant_except_break
            !(call_args(toks, tokens.index as int, vars, table) is Stuck),
            call_args(toks, tokens.index as int, vars, table) is Read ==> call_args(toks, j0, vars, table)
                == Reading::Read(
                crate::beam::mach::vars_view(args@) + call_args(toks, tokens.index as int, vars, table)->Read_0,
                call_args(toks, tokens.index as int, vars, table)->Read_1,
            ),
            call_args(toks, tokens.index as int, vars, table) is Refused ==> call_args(toks, j0, vars, table) is Refused,
        invariant
            tokens.tokens == old(tokens).tokens,
            toks == texts(tokens.tokens@),
            table == table_view(type_table@),
            vars == scope_view(variables.map()),
            variables.wf(),
            j0 == old(tokens).index,
        ensures
            call_args(toks, j0, vars, table) == Reading::Read(crate::beam::mach::vars_view(args@), tokens.index as int),
        decreases tokens.tokens@.len() - tokens.index,
    {
        let ghost j = tokens.index as int;
        let n = tokens.next().unwrap();
        assert(n.text@ == toks[j]);
        if str_equal(n.text.as_str(), ")") {
            assert(crate::beam::mach::vars_view(args@) + seq![] =~= crate::beam::mach::vars_view(args@));
            break;
        }
        let a = match parse_var(n.text, variables, type_table) {
            Ok(a) => a,
            Err(e) => {
                return Err(e);
            },
        };
        let ghost old_a = args@;
        args.push(a);
        proof {
            if call_args(toks, j + 1, vars, table) is Read {
                let rest = call_args(toks, j + 1, vars, table)->Read_0;
                let x = var_reading(toks[j], vars, table)->Got_0;
                assert(crate::beam::mach::vars_view(args@) =~= crate::beam::mach::vars_view(old_a).push(x));
                assert(crate::beam::mach::vars_view(args@) + rest =~= crate::beam::mach::vars_view(old_a) + (seq![x] + rest));
            }
        }
    }
    Ok(args)
}

fn prefixed(function_name: &String, t: &String) -> (r: String)
    ensures
        r@ == function_name@ + t@,
{
    let mut s = function_name.clone();
    push_str(&mut s, t.as_str());
    s
}

/// Reads the right side of an assignment to `v` (see `assign_reading`).
fn parse_assign(
    tokens: &mut TokenStream,
    v: Var,
    variables: &Table<(usize, ShallowType)>,
    type_table: &[(String, Type)],
    file: &String,
) -> (r: Result<ParseCommandOutput, String>)
    requires
        variables.wf(),
        !(assign_reading(texts(old(tokens).tokens@), old(tokens).index as int, v@, scope_view(variables.map()), table_view(type_table@)) is Stuck),
    ensures
        final(tokens).tokens == old(tokens).tokens,
        match assign_reading(texts(old(tokens).tokens@), old(tokens).index as int, v@, scope_view(variables.map()), table_view(type_table@)) {
            CmdReading::Read(out, e, _) => r is Ok && r->Ok_0@ == out && final(tokens).index == e,
            CmdReading::Refused => r is Err,
            CmdReading::Stuck => false,
        },
{
    let ghost toks = texts(tokens.tokens@);
    let ghost table = table_view(type_table@);
    let ghost vars = scope_view(variables.map());
    let ghost i = tokens.index as int;
    let ghost vv = v@;
    proof {
        reveal_strlit("new");
        reveal_strlit("(");
    }
    let ln = tokens.next().unwrap();
    assert(ln.text@ == toks[i]);
    if str_equal(ln.text.as_str(), "new") {
        assert(tokens.tokens@[i + 1].text@ == toks[i + 1]);
        let mut t = parse_type(tokens, type_table)?;
        t.is_ptr = false;
        let out = ParseCommandOutput::Command { cmd: Cmd::Assign { l: v, r: Var::OperatorNew { new_type: t } } };
        return Ok(out);
    }
    match parse_var(ln.text.clone(), variables, type_table) {
        Err(_) => {
            let paren = tokens.next().unwrap();
            assert(paren.text@ == toks[i + 1]);
            if !str_equal(paren.text.as_str(), "(") {
                assert(false);
            }
            let args = read_call_args(tokens, variables, type_table)?;
            let name = crate::beam::parser::func_mangle(ln.text.clone(), file.clone());
            let f = Var::FunctionLiteral { name, idx: 0 };
            let out = ParseCommandOutput::Command { cmd: Cmd::Call { to_call: f, returned: v, args } };
            Ok(out)
        },
        Ok(l) => {
            let op = tokens.peek().unwrap();
            assert(op.text@ == toks[i + 1]);
            match binop_token(op.text.as_str()) {
                Some(b) => {
                    let _ = tokens.next();
                    let rn = tokens.next().unwrap();
                    assert(rn.text@ == toks[i + 2]);
                    let r = parse_var(rn.text, variables, type_table)?;
                    return Ok(ParseCommandOutput::Command { cmd: Cmd::Binop { l, r, out: v, op: b } });
                },
                None => {},
            }
            if str_equal(op.text.as_str(), "(") {
                let _ = tokens.next();
                let args = read_call_args(tokens, variables, type_table)?;
                Ok(ParseCommandOutput::Command { cmd: Cmd::Call { to_call: l, returned: v, args } })
            } else if str_equal(op.text.as_str(), "new") {
                let t = parse_type(tokens, type_table)?;
                Ok(ParseCommandOutput::Command { cmd: Cmd::Assign { l, r: Var::OperatorNew { new_type: t } } })
            } else {
                Ok(ParseCommandOutput::Command { cmd: Cmd::Assign { l: v, r: l } })
            }
        },
    }
}

/// Reads one command of the function `function_name` (see `cmd_reading`). A
/// declaration followed by `=` puts its name back under the cursor, so that the
/// assignment is read next.
pub fn parse_command(
    tokens: &mut TokenStream,
    variables: &Table<(usize, ShallowType)>,
    type_table: &[(String, Type)],
    file: String,
    function_name: String,
) -> (r: Result<ParseCommandOutput, String>)
    requires
        variables.wf(),
        old(tokens).index <= old(tokens).tokens@.len(),
        !(cmd_reading(texts(old(tokens).tokens@), old(tokens).index as int, scope_view(variables.map()), table_view(type_table@), function_name@) is Stuck),
    ensures
        match cmd_reading(texts(old(tokens).tokens@), old(tokens).index as int, scope_view(variables.map()), table_view(type_table@), function_name@) {
            CmdReading::Read(out, e, back) => r is Ok && r->Ok_0@ == out && final(tokens).index == e
                && (if back {
                    final(tokens).tokens@ == old(tokens).tokens@.insert(e, old(tokens).tokens@[old(tokens).index as int])
                } else {
                    final(tokens).tokens == old(tokens).tokens
                }),
            CmdReading::Refused => r is Err && final(tokens).tokens == old(tokens).tokens,
            CmdReading::Stuck => false,
        },
{
    let ghost toks = texts(tokens.tokens@);
    let ghost table = table_view(type_table@);
    let ghost vars = scope_view(variables.map());
    let ghost i = tokens.index as int;
    proof {
        reveal_strlit("end");
        reveal_strlit("return");
        reveal_strlit("label");
        reveal_strlit("goto");
        reveal_strlit("if");
        reveal_strlit("(");
        reveal_strlit("=");
        reveal_strlit(":");
    }
    let base = tokens.next().unwrap();
    assert(base.text@ == toks[i]);
    let s = base.text.clone();
    if str_equal(s.as_str(), "end") {
        return Ok(ParseCommandOutput::Done);
    }
    if str_equal(s.as_str(), "return") {
        let t = tokens.next().unwrap();
        assert(t.text@ == toks[i + 1]);
        let x = parse_var(t.text, variables, type_table)?;
        return Ok(ParseCommandOutput::Command { cmd: Cmd::Return { to_return: x } });
    }
    if str_equal(s.as_str(), "label") {
        let t = tokens.next().unwrap();
        assert(t.text@ == toks[i + 1]);
        return Ok(ParseCommandOutput::Label { name: prefixed(&function_name, &t.text) });
    }
    if str_equal(s.as_str(), "goto") {
        let t = tokens.next().unwrap();
        assert(t.text@ == toks[i + 1]);
        return Ok(ParseCommandOutput::Command { cmd: Cmd::Jmp { to: prefixed(&function_name, &t.text), to_idx: 0 } });
    }
    if str_equal(s.as_str(), "if") {
        let t = tokens.next().unwrap();
        assert(t.text@ == toks[i + 1]);
        let c = parse_var(t.text, variables, type_table)?;
        let g = tokens.next().unwrap();
        assert(g.text@ == toks[i + 2]);
        if !str_equal(g.text.as_str(), "goto") {
            assert(false);
        }
        let to = tokens.next().unwrap();
        assert(to.text@ == toks[i + 3]);
        return Ok(ParseCommandOutput::Command { cmd: Cmd::JmpCond { cond: c, to: prefixed(&function_name, &to.text), to_idx: 0 } });
    }
    match parse_var(s.clone(), variables, type_table) {
        Ok(v) => {
            let n = tokens.next().unwrap();
            assert(n.text@ == toks[i + 1]);
            if str_equal(n.text.as_str(), "(") {
                let args = read_call_args(tokens, variables, type_table)?;
                Ok(ParseCommandOutput::Command { cmd: Cmd::Call { to_call: v, returned: Var::Unit, args } })
            } else if str_equal(n.text.as_str(), "=") {
                parse_assign(tokens, v, variables, type_table, &file)
            } else {
                assert(false);
                Err(String::new())
            }
        },
        Err(_) => {
            let n = tokens.next().unwrap();
            assert(n.text@ == toks[i + 1]);
            if !str_equal(n.text.as_str(), "(") {
                if str_equal(n.text.as_str(), ":") {
                    assert(tokens.tokens@[i + 2].text@ == toks[i + 2]);
                    let vt = parse_type(tokens, type_table)?;
                    let ghost at = tokens.index as int;
                    match tokens.peek() {
                        Some(t) => {
                            assert(t.text@ == toks[i + 3]);
                            if str_equal(t.text.as_str(), "=") {
                                tokens.insert_next(base.clone());
                            }
                        },
                        None => {},
                    }
                    return Ok(ParseCommandOutput::Declared { name: s, vt });
                } else {
                    assert(false);
                    return Err(String::new());
                }
            }
            match read_call_args(tokens, variables, type_table) {
                Err(e) => Err(e),
                Ok(_) => {
                    assert(false);
                    Err(String::new())
                },
            }
        },
    }
}

proof fn lemma_call_args_pos(
    toks: Seq<Seq<char>>,
    j: int,
    vars: Map<Seq<char>, (usize, STV)>,
    table: Seq<(Seq<char>, TyV)>,
)
    ensures
        call_args(toks, j, vars, table) is Read ==> j < call_args(toks, j, vars, table)->Read_1 <= toks.len(),
    decreases toks.len() - j,
{
    if 0 <= j < toks.len() && toks[j] != ")"@ {
        lemma_call_args_pos(toks, j + 1, vars, table);
    }
}

proof fn lemma_cmd_pos(
    toks: Seq<Seq<char>>,
    i: int,
    vars: Map<Seq<char>, (usize, STV)>,
    table: Seq<(Seq<char>, TyV)>,
    fname: Seq<char>,
)
    ensures
        cmd_reading(toks, i, vars, table, fname) is Read ==> {
            let e = cmd_reading(toks, i, vars, table, fname)->Read_1;
            let back = cmd_reading(toks, i, vars, table, fname)->Read_2;
            i < e <= toks.len() && (back ==> e < toks.len())
        },
{
    lemma_call_args_pos(toks, i + 2, vars, table);
    lemma_call_args_pos(toks, i + 4, vars, table);
}

/// The state of reading a function body: the token texts, the position, the
/// variables in scope, the labels (positions of commands), the commands so far (the
/// first one a placeholder for the declarations) and the types of the declared
/// variables.
pub struct BodyV {
    pub ts: Seq<Seq<char>>,
    pub i: int,
    pub vars: Map<Seq<char>, (usize, STV)>,
    pub labels: Map<Seq<char>, usize>,
    pub cmds: Seq<CmdV>,
    pub vts: Seq<TyV>,
}

/// How reading a function body stands: a panic, an error, still reading, or done.
pub enum BodyRun {
    Stuck,
    Refused,
    Running(BodyV),
    Finished(BodyV),
}

/// One command read into the body state: `end` finishes; a label records the
/// position of the next command; a command is added; a declaration adds a variable (at
/// the next slot) and its type.
pub open spec fn body_step(b: BodyV, table: Seq<(Seq<char>, TyV)>, fname: Seq<char>) -> BodyRun {
    match cmd_reading(b.ts, b.i, b.vars, table, fname) {
        CmdReading::Stuck => BodyRun::Stuck,
        CmdReading::Refused => BodyRun::Refused,
        CmdReading::Read(out, e, back) => {
            let ts = if back {
                b.ts.insert(e, b.ts[b.i])
            } else {
                b.ts
            };
            match out {
                PcoV::Done => BodyRun::Finished(BodyV { ts, i: e, ..b }),
                PcoV::Label { name } => BodyRun::Running(
                    BodyV { ts, i: e, labels: b.labels.insert(name, b.cmds.len() as usize), ..b },
                ),
                PcoV::Command { cmd } => BodyRun::Running(BodyV { ts, i: e, cmds: b.cmds.push(cmd), ..b }),
                PcoV::Declared { name, vt } => if crate::beam::mach::st_ok(vt, table) {
                    BodyRun::Running(
                        BodyV {
                            ts,
                            i: e,
                            vts: b.vts.push(crate::beam::mach::st_type(vt, table)),
                            vars: b.vars.insert(name, (b.vars.dom().len() as usize, vt)),
                            ..b
                        },
                    )
                } else {
                    BodyRun::Stuck
                },
            }
        },
    }
}

/// The body state after `k` commands.
pub open spec fn body_run(b: BodyV, table: Seq<(Seq<char>, TyV)>, fname: Seq<char>, k: nat) -> BodyRun
    decreases k,
{
    if k == 0 {
        BodyRun::Running(b)
    } else {
        match body_run(b, table, fname, (k - 1) as nat) {
            BodyRun::Running(c) => body_step(c, table, fname),
            other => other,
        }
    }
}

/// Reading has ended, well or with an error.
pub open spec fn body_ended(r: BodyRun) -> bool {
    r is Finished || r is Refused
}

/// How reading the body ends.
pub open spec fn body_end(b: BodyV, table: Seq<(Seq<char>, TyV)>, fname: Seq<char>) -> BodyRun {
    body_run(b, table, fname, choose|k: nat| body_ended(body_run(b, table, fname, k)))
}

/// The scope made of the first `k` arguments, each in the next slot.
pub open spec fn args_scope(args: Seq<(Seq<char>, STV)>, k: nat) -> Map<Seq<char>, (usize, STV)>
    decreases k,
{
    if k == 0 {
        Map::empty()
    } else {
        let m = args_scope(args, (k - 1) as nat);
        m.insert(args[k - 1].0, (m.dom().len() as usize, args[k - 1].1))
    }
}

/// The body state after a header that ends at `e`.
pub open spec fn body_start(h: HeaderV, e: int, ts: Seq<Seq<char>>) -> BodyV {
    BodyV {
        ts,
        i: e,
        vars: args_scope(h.args, h.args.len()),
        labels: Map::empty(),
        cmds: seq![CmdV::DeclareVariables { values: seq![] }],
        vts: seq![],
    }
}

/// Reading a function at `i` ends without a panic.
pub open spec fn fn_parse_ok(ts: Seq<Seq<char>>, i: int, table: Seq<(Seq<char>, TyV)>) -> bool {
    match fn_header(ts, i, table) {
        Reading::Stuck => false,
        Reading::Refused => true,
        Reading::Read(h, e) => exists|k: nat| body_ended(body_run(body_start(h, e, ts), table, h.name, k)),
    }
}

proof fn lemma_header_args_pos(toks: Seq<Seq<char>>, j: int, table: Seq<(Seq<char>, TyV)>)
    requires
        0 <= j <= toks.len(),
    ensures
        header_args(toks, j, table) is Read ==> header_args(toks, j, table)->Read_1 <= toks.len(),
    decreases toks.len() - j,
{
    if j < toks.len() && toks[j] != ":"@ && j + 1 < toks.len() {
        lemma_header_args_pos(toks, j + 2, table);
    }
}

proof fn lemma_header_pos(toks: Seq<Seq<char>>, i: int, table: Seq<(Seq<char>, TyV)>)
    ensures
        fn_header(toks, i, table) is Read ==> fn_header(toks, i, table)->Read_1 <= toks.len(),
{
    if 0 <= i && i + 1 < toks.len() {
        lemma_header_args_pos(toks, i + 2, table);
    }
}

proof fn lemma_body_absorb(b: BodyV, table: Seq<(Seq<char>, TyV)>, fname: Seq<char>, k: nat, k2: nat)
    requires
        k <= k2,
        !(body_run(b, table, fname, k) is Running),
    ensures
        body_run(b, table, fname, k2) == body_run(b, table, fname, k),
    decreases k2,
{
    if k < k2 {
        lemma_body_absorb(b, table, fname, k, (k2 - 1) as nat);
    }
}

proof fn lemma_scope_insert(m: Map<Seq<char>, (usize, ShallowType)>, k: Seq<char>, v: (usize, ShallowType))
    ensures
        scope_view(m.insert(k, v)) == scope_view(m).insert(k, (v.0, v.1@)),
        scope_view(m).dom() == m.dom(),
{
    assert(scope_view(m.insert(k, v)) =~= scope_view(m).insert(k, (v.0, v.1@)));
    assert(scope_view(m).dom() =~= m.dom());
}

/// Reads a function: its header, then commands up to `end` (see `body_run`). The
/// first command declares the variables declared in the body, in order.
pub fn parse_fn(tokens: &mut TokenStream, type_table: &[(String, Type)], file: String) -> (r: Result<(String, Function), String>)
    requires
        old(tokens).index <= old(tokens).tokens@.len(),
        fn_parse_ok(texts(old(tokens).tokens@), old(tokens).index as int, table_view(type_table@)),
    ensures
        match fn_header(texts(old(tokens).tokens@), old(tokens).index as int, table_view(type_table@)) {
            Reading::Read(h, e) => match body_end(body_start(h, e, texts(old(tokens).tokens@)), table_view(type_table@), h.name) {
                BodyRun::Finished(b) => r is Ok && r->Ok_0.0@ == h.name
                    && r->Ok_0.1@ == (crate::beam::mach::FunctionV {
                        arguments: h.args,
                        return_type: h.ret,
                        cmds: b.cmds.update(0, CmdV::DeclareVariables { values: b.vts }),
                        labels: b.labels,
                        display_name: h.name,
                    })
                    && r->Ok_0.1.labels.wf()
                    && texts(final(tokens).tokens@) == b.ts && final(tokens).index == b.i,
                _ => r is Err,
            },
            _ => r is Err,
        },
        r is Ok ==> final(tokens).index <= final(tokens).tokens@.len(),
{
    let ghost table = table_view(type_table@);
    let ghost ts0 = texts(tokens.tokens@);
    let ghost i0 = tokens.index as int;
    let header = parse_fn_header(tokens, type_table)?;
    let ghost h = fn_header(ts0, i0, table)->Read_0;
    let ghost e0 = fn_header(ts0, i0, table)->Read_1;
    let ghost b0 = body_start(h, e0, ts0);
    let ghost kk = choose|k: nat| body_ended(body_run(b0, table, h.name, k));
    proof {
        lemma_header_pos(ts0, i0, table);
        assert(body_end(b0, table, h.name) == body_run(b0, table, h.name, kk));
    }
    let mut cmds: Vec<Cmd> = Vec::new();
    let d = Cmd::DeclareVariables { values: Vec::new() };
    assert(d@ == CmdV::DeclareVariables { values: seq![] }) by {
        assert(crate::beam::mach::tys_view(Seq::<Type>::empty()) =~= seq![]);
    }
    cmds.push(d);
    let mut labels: Table<usize> = Table::new();
    let mut variables: Table<(usize, ShallowType)> = Table::new();
    let mut vt_stack: Vec<Type> = Vec::new();
    let na = header.1.arguments.len();
    let mut a: usize = 0;
    assert(scope_view(variables.map()) =~= args_scope(h.args, 0));
    while a < na
        invariant
            a <= na,
            na == header.1.arguments@.len(),
            h.args == fields_view(header.1.arguments@),
            variables.wf(),
            scope_view(variables.map()) == args_scope(h.args, a as nat),
        decreases na - a,
    {
        let idx = variables.len();
        proof {
            lemma_scope_insert(variables.map(), header.1.arguments@[a as int].0@, (idx, header.1.arguments@[a as int].1));
        }
        variables.insert(header.1.arguments[a].0.clone(), (idx, header.1.arguments[a].1.clone()));
        a += 1;
    }
    let ghost mut c: nat = 0;
    assert(crate::beam::mach::cmds_view(cmds@) =~= b0.cmds);
    assert(crate::beam::mach::tys_view(vt_stack@) =~= b0.vts);
    loop
        invariant_except_break
            body_run(b0, table, h.name, c) == BodyRun::Running(BodyV {
                ts: texts(tokens.tokens@),
                i: tokens.index as int,
                vars: scope_view(variables.map()),
                labels: labels.map(),
                cmds: crate::beam::mach::cmds_view(cmds@),
                vts: crate::beam::mach::tys_view(vt_stack@),
            }),
            tokens.index <= tokens.tokens@.len(),
        invariant
            table == table_view(type_table@),
            body_ended(body_run(b0, table, h.name, kk)),
            variables.wf(),
            labels.wf(),
            header.0@ == h.name,
            cmds@.len() >= 1,
            body_end(b0, table, h.name) == body_run(b0, table, h.name, kk),
            fn_header(ts0, i0, table) == Reading::Read(h, e0),
            b0 == body_start(h, e0, ts0),
            ts0 == texts(old(tokens).tokens@),
            i0 == old(tokens).index,
        ensures
            tokens.index <= tokens.tokens@.len(),
            body_run(b0, table, h.name, c) == BodyRun::Finished(BodyV {
                ts: texts(tokens.tokens@),
                i: tokens.index as int,
                vars: scope_view(variables.map()),
                labels: labels.map(),
                cmds: crate::beam::mach::cmds_view(cmds@),
                vts: crate::beam::mach::tys_view(vt_stack@),
            }),
        decreases tokens.tokens@.len() - tokens.index,
    {
        let ghost cur = body_run(b0, table, h.name, c)->Running_0;
        proof {
            if kk <= c {
                lemma_body_absorb(b0, table, h.name, kk, c);
            }
            assert(c < kk);
            lemma_cmd_pos(cur.ts, cur.i, cur.vars, table, h.name);
            assert(body_run(b0, table, h.name, c + 1) == body_step(cur, table, h.name));
            if body_step(cur, table, h.name) is Stuck {
                lemma_body_absorb(b0, table, h.name, c + 1, kk);
            }
        }
        let n = parse_command(tokens, &variables, type_table, file.clone(), header.0.clone());
        let n = match n {
            Ok(n) => n,
            Err(e) => {
                proof {
                    assert(body_step(cur, table, h.name) is Refused);
                    lemma_body_absorb(b0, table, h.name, c + 1, kk);
                    assert(body_end(b0, table, h.name) is Refused);
                }
                return Err(e);
            },
        };
        proof {
            let rd = cmd_reading(cur.ts, cur.i, cur.vars, table, h.name);
            let back = rd->Read_2;
            let e = rd->Read_1;
            if back {
                assert(texts(tokens.tokens@) =~= cur.ts.insert(e, cur.ts[cur.i]));
            }
            c = c + 1;
        }
        match n {
            ParseCommandOutput::Label { name } => {
                let pos = cmds.len();
                labels.insert(name, pos);
                assert(crate::beam::mach::cmds_view(cmds@).len() == cmds@.len());
            },
            ParseCommandOutput::Command { cmd } => {
                let ghost cv = cmd@;
                cmds.push(cmd);
                assert(crate::beam::mach::cmds_view(cmds@) =~= cur.cmds.push(cv));
            },
            ParseCommandOutput::Done => {
                break;
            },
            ParseCommandOutput::Declared { name, vt } => {
                let t = vt.as_type(type_table);
                let ghost tv = t@;
                vt_stack.push(t);
                assert(crate::beam::mach::tys_view(vt_stack@) =~= cur.vts.push(tv));
                let idx = variables.len();
                proof {
                    lemma_scope_insert(variables.map(), name@, (idx, vt));
                }
                variables.insert(name, (idx, vt));
            },
        }
    }
    proof {
        if c <= kk {
            lemma_body_absorb(b0, table, h.name, c, kk);
        } else {
            lemma_body_absorb(b0, table, h.name, kk, c);
        }
    }
    let ghost fin = body_run(b0, table, h.name, c)->Finished_0;
    let ghost vts = crate::beam::mach::tys_view(vt_stack@);
    cmds.set(0, Cmd::DeclareVariables { values: vt_stack });
    assert(crate::beam::mach::cmds_view(cmds@) =~= fin.cmds.update(0, CmdV::DeclareVariables { values: vts }));
    let f = Function {
        arguments: header.1.arguments,
        return_type: header.1.return_type,
        cmds,
        labels,
        display_name: header.0.clone(),
    };
    Ok((header.0, f))
}

/// The functions of a program by name, by their views.
pub open spec fn fns_view(p: Program) -> Map<Seq<char>, crate::beam::mach::FunctionV> {
    p.functions.map().map_values(|f: Function| f@)
}

/// A command passes the checks of a program with type table `table` and functions
/// `fns`: the operands of an operation or an assignment have one type; a jump goes to a
/// label of the function; a condition is a boolean; a call goes to a function of the
/// program, with a result and arguments of its types; a return gives the function's
/// result type. The types involved must resolve in the type table.
pub open spec fn cmd_checks(
    c: CmdV,
    table: Seq<(Seq<char>, TyV)>,
    fns: Map<Seq<char>, crate::beam::mach::FunctionV>,
    labels: Map<Seq<char>, usize>,
    ret: STV,
) -> bool {
    match c {
        CmdV::Binop { l, r, .. } => crate::beam::mach::var_type_ok(l, table) && crate::beam::mach::var_type_ok(r, table)
            && crate::beam::mach::var_type(l, table) == crate::beam::mach::var_type(r, table),
        CmdV::Assign { l, r } => crate::beam::mach::var_type_ok(l, table) && crate::beam::mach::var_type_ok(r, table)
            && crate::beam::mach::var_type(l, table) == crate::beam::mach::var_type(r, table),
        CmdV::Jmp { to, .. } => labels.dom().contains(to),
        CmdV::JmpCond { cond, to, .. } => crate::beam::mach::var_type_ok(cond, table)
            && crate::beam::mach::var_type(cond, table) == TyV::Bool && labels.dom().contains(to),
        CmdV::DeclareVariables { .. } => true,
        CmdV::Call { to_call, returned, args } => {
            let t = crate::beam::mach::var_type(to_call, table);
            &&& crate::beam::mach::var_type_ok(to_call, table)
            &&& t is Function
            &&& fns.dom().contains(t->Function_name)
            &&& {
                let g = fns[t->Function_name];
                &&& forall|i: int| 0 <= i < g.arguments.len() ==> crate::beam::mach::st_ok(#[trigger] g.arguments[i].1, table)
                &&& crate::beam::mach::st_ok(g.return_type, table)
                &&& crate::beam::mach::var_type_ok(returned, table)
                &&& crate::beam::mach::var_type(returned, table) == crate::beam::mach::st_type(g.return_type, table)
                &&& args.len() == g.arguments.len()
                &&& forall|i: int| 0 <= i < args.len() ==> crate::beam::mach::var_type_ok(#[trigger] args[i], table)
                    && crate::beam::mach::var_type(args[i], table) == crate::beam::mach::st_type(g.arguments[i].1, table)
            }
        },
        CmdV::Return { to_return } => crate::beam::mach::var_type_ok(to_return, table) && crate::beam::mach::st_ok(ret, table)
            && crate::beam::mach::var_type(to_return, table) == crate::beam::mach::st_type(ret, table),
    }
}

/// Every command of function `f` passes the checks.
pub open spec fn fn_checks(
    table: Seq<(Seq<char>, TyV)>,
    fns: Map<Seq<char>, crate::beam::mach::FunctionV>,
    f: crate::beam::mach::FunctionV,
) -> bool {
    forall|i: int| 0 <= i < f.cmds.len() ==> cmd_checks(#[trigger] f.cmds[i], table, fns, f.labels, f.return_type)
}

fn check_cmd(p: &Program, f: &Function, c: &Cmd)
    requires
        p.functions.wf(),
        cmd_checks(c@, table_view(p.types@), fns_view(*p), f.labels.map(), f.return_type@),
{
    let types = p.types.as_slice();
    match c {
        Cmd::Binop { l, r, .. } => {
            let _ = crate::beam::mach::same_ty(&l.get_type(types), &r.get_type(types));
        },
        Cmd::Assign { l, r } => {
            let _ = crate::beam::mach::same_ty(&l.get_type(types), &r.get_type(types));
        },
        Cmd::Jmp { to, .. } => {
            let _ = f.labels.contains_key(to.as_str());
        },
        Cmd::JmpCond { cond, to, .. } => {
            let _ = cond.get_type(types);
            let _ = f.labels.contains_key(to.as_str());
        },
        Cmd::DeclareVariables { .. } => {},
        Cmd::Call { to_call, returned, args } => {
            let t = to_call.get_type(types);
            match t {
                Type::Function { from: _, to: _, name } => {
                    let g = p.functions.get(name.as_str()).unwrap();
                    assert(fns_view(*p)[name@] == g@);
                    let mut i: usize = 0;
                    while i < g.arguments.len()
                        invariant
                            i <= g.arguments@.len(),
                            types@ == p.types@,
                            forall|k: int| 0 <= k < g.arguments@.len() ==> crate::beam::mach::st_ok(
                                #[trigger] fields_view(g.arguments@)[k].1,
                                table_view(p.types@),
                            ),
                        decreases g.arguments@.len() - i,
                    {
                        assert(fields_view(g.arguments@)[i as int].1 == g.arguments@[i as int].1@);
                        let _ = g.arguments[i].1.as_type(types);
                        i += 1;
                    }
                    let _ = g.return_type.as_type(types);
                    let _ = returned.get_type(types);
                    let mut k: usize = 0;
                    while k < args.len()
                        invariant
                            k <= args@.len(),
                            types@ == p.types@,
                            forall|j: int| 0 <= j < args@.len() ==> crate::beam::mach::var_type_ok(
                                #[trigger] crate::beam::mach::vars_view(args@)[j],
                                table_view(p.types@),
                            ),
                        decreases args@.len() - k,
                    {
                        assert(crate::beam::mach::vars_view(args@)[k as int] == args@[k as int]@);
                        let _ = args[k].get_type(types);
                        k += 1;
                    }
                },
                _ => {},
            }
        },
        Cmd::Return { to_return } => {
            let _ = to_return.get_type(types);
            let _ = f.return_type.as_type(types);
        },
    }
}

/// Checks the commands of `f` against program `p` (see `cmd_checks`); the function
/// comes back unchanged.
pub fn function_fixups(p: &Program, f: &Function) -> (r: Result<Function, String>)
    requires
        p.functions.wf(),
        fn_checks(table_view(p.types@), fns_view(*p), f@),
    ensures
        r is Ok,
        r->Ok_0@ == f@,
        r->Ok_0.labels.seq() == f.labels.seq(),
{
    let mut i: usize = 0;
    while i < f.cmds.len()
        invariant
            i <= f.cmds@.len(),
            p.functions.wf(),
            fn_checks(table_view(p.types@), fns_view(*p), f@),
        decreases f.cmds@.len() - i,
    {
        assert(f@.cmds[i as int] == f.cmds@[i as int]@);
        assert(cmd_checks(f.cmds@[i as int]@, table_view(p.types@), fns_view(*p), f.labels.map(), f.return_type@));
        check_cmd(p, f, &f.cmds[i]);
        i += 1;
    }
    Ok(f.clone())
}

/// Every function of `p` passes the checks of `p`.
pub open spec fn program_checks(p: Program) -> bool {
    forall|i: int| 0 <= i < p.functions.seq().len() ==> fn_checks(table_view(p.types@), fns_view(p), #[trigger] p.functions.seq()[i].1@)
}

/// Two programs have the same functions under the same names, in the same order.
pub open spec fn same_functions(a: Program, b: Program) -> bool {
    &&& a.functions.seq().len() == b.functions.seq().len()
    &&& forall|i: int| 0 <= i < b.functions.seq().len() ==> #[trigger] a.functions.seq()[i].0
        == b.functions.seq()[i].0 && a.functions.seq()[i].1@ == b.functions.seq()[i].1@
        && a.functions.seq()[i].1.labels.seq() == b.functions.seq()[i].1.labels.seq()
}

/// Checks every function of `p` (see `function_fixups`); the program comes back
/// unchanged, its functions in the same order.
pub fn fixups(p: Program) -> (r: Result<Program, String>)
    requires
        p.functions.wf(),
        program_checks(p),
    ensures
        r is Ok,
        table_view(r->Ok_0.types@) == table_view(p.types@),
        r->Ok_0.functions.wf(),
        r->Ok_0.functions.seq().len() == p.functions.seq().len(),
        same_functions(r->Ok_0, p),
{
    let mut types: Vec<(String, Type)> = Vec::new();
    let mut t: usize = 0;
    while t < p.types.len()
        invariant
            t <= p.types@.len(),
            types@.len() == t,
            forall|j: int| 0 <= j < t ==> (#[trigger] types@[j]).0@ == p.types@[j].0@ && types@[j].1@ == p.types@[j].1@,
        decreases p.types@.len() - t,
    {
        types.push((p.types[t].0.clone(), p.types[t].1.clone()));
        t += 1;
    }
    assert(table_view(types@) =~= table_view(p.types@));
    let mut functions: Table<Function> = Table::new();
    let ghost ps = p.functions.seq();
    let n = p.functions.count();
    let mut i: usize = 0;
    while i < n
        invariant
            i <= n,
            n == ps.len(),
            ps == p.functions.seq(),
            p.functions.wf(),
            program_checks(p),
            functions.wf(),
            functions.seq().len() == i,
            forall|j: int| 0 <= j < i ==> #[trigger] functions.seq()[j].0 == ps[j].0 && functions.seq()[j].1@
                == ps[j].1@ && functions.seq()[j].1.labels.seq() == ps[j].1.labels.seq(),
        decreases n - i,
    {
        let (name, f) = p.functions.entry(i);
        assert(fn_checks(table_view(p.types@), fns_view(p), ps[i as int].1@));
        let g = function_fixups(&p, f)?;
        proof {
            crate::table::lemma_entries_map_dom(functions.seq(), name@);
            if functions.map().dom().contains(name@) {
                let j = choose|j: int| 0 <= j < functions.seq().len() && #[trigger] functions.seq()[j].0 == name@;
                assert(ps[j].0 == ps[i as int].0);
            }
        }
        functions.insert(name.clone(), g);
        i += 1;
    }
    let out = Program { types, functions };
    assert(same_functions(out, p));
    Ok(out)
}

/// The model of the linker's state: the commands placed so far, the symbol table, the
/// start of `main`, the type table.
pub struct LinkV {
    pub cmds: Seq<CmdV>,
    pub symbols: Map<Seq<char>, usize>,
    pub ip: int,
    pub types: Seq<(Seq<char>, TyV)>,
}

/// The symbols of the first `k` labels of a function placed at `base`.
pub open spec fn labels_into(m: Map<Seq<char>, usize>, ls: Seq<(Seq<char>, usize)>, base: int, k: nat) -> Map<Seq<char>, usize>
    decreases k,
{
    if k == 0 {
        m
    } else {
        labels_into(m, ls, base, (k - 1) as nat).insert(ls[k - 1].0, (ls[k - 1].1 + base) as usize)
    }
}

/// Places a function: `main` sets the start; the function's name and then its labels
/// enter the symbol table at its position; its commands follow the others.
pub open spec fn link_fn(s: LinkV, name: Seq<char>, f: Function) -> LinkV {
    let base = s.cmds.len() as int;
    LinkV {
        cmds: s.cmds + crate::beam::mach::cmds_view(f.cmds@),
        symbols: labels_into(s.symbols.insert(name, base as usize), f.labels.seq(), base, f.labels.seq().len()),
        ip: if crate::beam::fast::is_main(f) { base } else { s.ip },
        types: s.types,
    }
}

/// The linker's state after the first `k` functions of `p`.
pub open spec fn link_fns(s: LinkV, p: Program, k: nat) -> LinkV
    decreases k,
{
    if k == 0 {
        s
    } else {
        let e = p.functions.seq()[k - 1];
        link_fn(link_fns(s, p, (k - 1) as nat), e.0, e.1)
    }
}

/// The label positions of the first `k` functions of `p` stay in range.
pub open spec fn link_fns_ok(s: LinkV, p: Program, k: nat) -> bool
    decreases k,
{
    if k == 0 {
        true
    } else {
        let e = p.functions.seq()[k - 1];
        let t = link_fns(s, p, (k - 1) as nat);
        &&& link_fns_ok(s, p, (k - 1) as nat)
        &&& t.cmds.len() + e.1.cmds@.len() <= usize::MAX
        &&& forall|j: int| 0 <= j < e.1.labels.seq().len() ==> #[trigger] e.1.labels.seq()[j].1 + t.cmds.len() <= usize::MAX
    }
}

/// The linker's state after the first `n` programs, each followed by its types.
pub open spec fn link_progs(s: LinkV, ps: Seq<Program>, n: nat) -> LinkV
    decreases n,
{
    if n == 0 {
        s
    } else {
        let t = link_fns(link_progs(s, ps, (n - 1) as nat), ps[n - 1], ps[n - 1].functions.seq().len());
        LinkV { types: t.types + table_view(ps[n - 1].types@), ..t }
    }
}

/// The label positions of the first `n` programs stay in range.
pub open spec fn link_progs_ok(s: LinkV, ps: Seq<Program>, n: nat) -> bool
    decreases n,
{
    if n == 0 {
        true
    } else {
        link_progs_ok(s, ps, (n - 1) as nat) && link_fns_ok(link_progs(s, ps, (n - 1) as nat), ps[n - 1], ps[n - 1].functions.seq().len())
    }
}

/// The failure trap that the first eight commands jump to.
pub open spec fn trap() -> CmdV {
    CmdV::Jmp { to: "__failed"@, to_idx: 0 }
}

/// The linker's state before any program: eight traps.
pub open spec fn link_start() -> LinkV {
    LinkV { cmds: Seq::new(8, |i: int| trap()), symbols: Map::empty(), ip: 0, types: seq![] }
}

/// A command with its jump or call target resolved through the symbol table, when the
/// target is a symbol.
pub open spec fn resolve(c: CmdV, syms: Map<Seq<char>, usize>) -> CmdV {
    match c {
        CmdV::Call { to_call: VarV::FunctionLiteral { name, idx }, returned, args } => CmdV::Call {
            to_call: VarV::FunctionLiteral { name, idx: if syms.dom().contains(name) { syms[name] } else { idx } },
            returned,
            args,
        },
        CmdV::Jmp { to, to_idx } => CmdV::Jmp { to, to_idx: if syms.dom().contains(to) { syms[to] } else { to_idx } },
        CmdV::JmpCond { cond, to, to_idx } => CmdV::JmpCond {
            cond,
            to,
            to_idx: if syms.dom().contains(to) { syms[to] } else { to_idx },
        },
        _ => c,
    }
}

/// The linked state of `progs`.
pub open spec fn linked(progs: Seq<Program>) -> LinkV {
    link_progs(link_start(), progs, progs.len())
}

fn resolve_cmd(c: &Cmd, syms: &Table<usize>) -> (r: Cmd)
    requires
        syms.wf(),
    ensures
        r@ == resolve(c@, syms.map()),
{
    match c {
        Cmd::Call { to_call, returned, args } => {
            match to_call {
                Var::FunctionLiteral { name, idx } => {
                    let i = match syms.get(name.as_str()) {
                        Some(v) => *v,
                        None => *idx,
                    };
                    let r = Cmd::Call {
                        to_call: Var::FunctionLiteral { name: name.clone(), idx: i },
                        returned: returned.clone(),
                        args: crate::beam::mach::copy_vars(args),
                    };
                    assert(to_call@ == (VarV::FunctionLiteral { name: name@, idx: *idx }));
                    assert(r@ == resolve(c@, syms.map()));
                    r
                },
                _ => c.clone(),
            }
        },
        Cmd::Jmp { to, to_idx } => {
            let i = match syms.get(to.as_str()) {
                Some(v) => *v,
                None => *to_idx,
            };
            Cmd::Jmp { to: to.clone(), to_idx: i }
        },
        Cmd::JmpCond { cond, to, to_idx } => {
            let i = match syms.get(to.as_str()) {
                Some(v) => *v,
                None => *to_idx,
            };
            Cmd::JmpCond { cond: cond.clone(), to: to.clone(), to_idx: i }
        },
        _ => c.clone(),
    }
}

fn link_function(cmds: &mut Vec<Cmd>, syms: &mut Table<usize>, ip: &mut u64, name: &String, f: &Function, types: Ghost<Seq<(Seq<char>, TyV)>>)
    requires
        old(syms).wf(),
        old(cmds)@.len() + f.cmds@.len() <= usize::MAX,
        forall|j: int| 0 <= j < f.labels.seq().len() ==> #[trigger] f.labels.seq()[j].1 + old(cmds)@.len() <= usize::MAX,
    ensures
        final(syms).wf(),
        (LinkV { cmds: crate::beam::mach::cmds_view(final(cmds)@), symbols: final(syms).map(), ip: *final(ip) as int, types: types@ })
            == link_fn(LinkV { cmds: crate::beam::mach::cmds_view(old(cmds)@), symbols: old(syms).map(), ip: *old(ip) as int, types: types@ }, name@, *f),
{
    proof {
        reveal_strlit("main");
        assert("main"@ =~= seq!['m', 'a', 'i', 'n']);
    }
    let ghost s = LinkV { cmds: crate::beam::mach::cmds_view(cmds@), symbols: syms.map(), ip: *ip as int, types: types@ };
    let base = cmds.len();
    if str_equal(f.display_name.as_str(), "main") {
        *ip = base as u64;
    }
    syms.insert(name.clone(), base);
    let mut i: usize = 0;
    while i < f.cmds.len()
        invariant
            i <= f.cmds@.len(),
            base == s.cmds.len(),
            base + f.cmds@.len() <= usize::MAX,
            crate::beam::mach::cmds_view(cmds@) == s.cmds + crate::beam::mach::cmds_view(f.cmds@).take(i as int),
        decreases f.cmds@.len() - i,
    {
        let ghost prev = cmds@;
        let cc = f.cmds[i].clone();
        cmds.push(cc);
        assert(crate::beam::mach::cmds_view(cmds@) =~= crate::beam::mach::cmds_view(prev).push(f.cmds@[i as int]@));
        assert(crate::beam::mach::cmds_view(f.cmds@).take(i + 1) =~= crate::beam::mach::cmds_view(f.cmds@).take(i as int).push(f.cmds@[i as int]@));
        assert(crate::beam::mach::cmds_view(cmds@) =~= s.cmds + crate::beam::mach::cmds_view(f.cmds@).take(i + 1));
        i += 1;
    }
    assert(crate::beam::mach::cmds_view(f.cmds@).take(f.cmds@.len() as int) =~= crate::beam::mach::cmds_view(f.cmds@));
    let ghost ls = f.labels.seq();
    let ghost m0 = s.symbols.insert(name@, base);
    let n = f.labels.count();
    let mut k: usize = 0;
    while k < n
        invariant
            k <= n,
            n == ls.len(),
            ls == f.labels.seq(),
            base == s.cmds.len(),
            syms.wf(),
            syms.map() == labels_into(m0, ls, base as int, k as nat),
            forall|j: int| 0 <= j < ls.len() ==> #[trigger] ls[j].1 + base <= usize::MAX,
        decreases n - k,
    {
        let (lname, lpos) = f.labels.entry(k);
        syms.insert(lname.clone(), *lpos + base);
        k += 1;
    }
}

/// Links programs into a machine ready to run: eight failure traps, then each
/// function's commands (programs in order, functions in table order), the symbol table
/// of functions and labels, jump and call targets resolved through it, the type tables
/// one after the other, and the start at the last function named `main`.
pub fn link(progs: &[Program]) -> (r: crate::beam::mach::Machine)
    requires
        link_progs_ok(link_start(), progs@, progs@.len()),
    ensures
        crate::beam::mach::cmds_view(r.cmds@) == Seq::new(
            linked(progs@).cmds.len(),
            |i: int| resolve(linked(progs@).cmds[i], linked(progs@).symbols),
        ),
        r.symbol_table.map() == linked(progs@).symbols,
        r.ip == linked(progs@).ip,
        table_view(r.type_table@) == linked(progs@).types,
        r.v_start == 0 && r.v_end == 0 && r.frames@.len() == 0 && r.to_return is None,
        r.stack@.len() == 0 && !r.done,
        r.heap.wf(),
        r.float_consts.wf() && r.float_consts.seq().len() == 0,
{
    let mut cmds: Vec<Cmd> = Vec::new();
    let mut t: usize = 0;
    while t < 8
        invariant
            t <= 8,
            crate::beam::mach::cmds_view(cmds@) == Seq::new(t as nat, |i: int| trap()),
        decreases 8 - t,
    {
        proof {
            reveal_strlit("__failed");
        }
        let ghost prev = cmds@;
        let j = Cmd::Jmp { to: String::from_str("__failed"), to_idx: 0 };
        assert(j@ == trap());
        cmds.push(j);
        assert(crate::beam::mach::cmds_view(cmds@) =~= crate::beam::mach::cmds_view(prev).push(trap()));
        assert(crate::beam::mach::cmds_view(cmds@) =~= Seq::new((t + 1) as nat, |i: int| trap()));
        t += 1;
    }
    let mut syms: Table<usize> = Table::new();
    let mut ip: u64 = 0;
    let mut types: Vec<(String, Type)> = Vec::new();
    let mut pi: usize = 0;
    assert(table_view(types@) =~= seq![]);
    while pi < progs.len()
        invariant
            pi <= progs@.len(),
            syms.wf(),
            link_progs_ok(link_start(), progs@, progs@.len()),
            (LinkV { cmds: crate::beam::mach::cmds_view(cmds@), symbols: syms.map(), ip: ip as int, types: table_view(types@) })
                == link_progs(link_start(), progs@, pi as nat),
        decreases progs@.len() - pi,
    {
        let p = &progs[pi];
        proof {
            lemma_link_progs_ok(link_start(), progs@, (pi + 1) as nat, progs@.len());
        }
        let ghost s0 = LinkV { cmds: crate::beam::mach::cmds_view(cmds@), symbols: syms.map(), ip: ip as int, types: table_view(types@) };
        let ghost tv = table_view(types@);
        let nf = p.functions.count();
        let mut fi: usize = 0;
        while fi < nf
            invariant
                fi <= nf,
                nf == p.functions.seq().len(),
                *p == progs@[pi as int],
                syms.wf(),
                link_fns_ok(s0, *p, nf as nat),
                (LinkV { cmds: crate::beam::mach::cmds_view(cmds@), symbols: syms.map(), ip: ip as int, types: tv })
                    == link_fns(s0, *p, fi as nat),
            decreases nf - fi,
        {
            proof {
                lemma_link_fns_ok(s0, *p, (fi + 1) as nat, nf as nat);
            }
            let (name, f) = p.functions.entry(fi);
            link_function(&mut cmds, &mut syms, &mut ip, name, f, Ghost(tv));
            fi += 1;
        }
        let mut k: usize = 0;
        while k < p.types.len()
            invariant
                k <= p.types@.len(),
                table_view(types@) == tv + table_view(p.types@).take(k as int),
            decreases p.types@.len() - k,
        {
            let ghost prev = types@;
            let e = (p.types[k].0.clone(), p.types[k].1.clone());
            types.push(e);
            assert(table_view(types@) =~= table_view(prev).push((p.types@[k as int].0@, p.types@[k as int].1@)));
            assert(table_view(p.types@).take(k + 1) =~= table_view(p.types@).take(k as int).push((p.types@[k as int].0@, p.types@[k as int].1@)));
            assert(table_view(types@) =~= tv + table_view(p.types@).take(k + 1));
            k += 1;
        }
        assert(table_view(p.types@).take(p.types@.len() as int) =~= table_view(p.types@));
        pi += 1;
    }
    let ghost lk = linked(progs@);
    let mut out: Vec<Cmd> = Vec::new();
    let mut c: usize = 0;
    while c < cmds.len()
        invariant
            c <= cmds@.len(),
            syms.wf(),
            out@.len() == c,
            forall|j: int| 0 <= j < c ==> (#[trigger] out@[j])@ == resolve(cmds@[j]@, syms.map()),
        decreases cmds@.len() - c,
    {
        out.push(resolve_cmd(&cmds[c], &syms));
        c += 1;
    }
    assert(crate::beam::mach::cmds_view(out@) =~= Seq::new(lk.cmds.len(), |i: int| resolve(lk.cmds[i], lk.symbols)));
    crate::beam::mach::Machine {
        cmds: out,
        ip,
        v_start: 0,
        v_end: 0,
        frames: Vec::new(),
        to_return: None,
        heap: crate::beam::mach::HeapInternal::new(),
        type_table: types,
        symbol_table: syms,
        stack: Vec::new(),
        done: false,
        float_consts: Table::new(),
    }
}

proof fn lemma_link_fns_ok(s: LinkV, p: Program, j: nat, k: nat)
    requires
        j <= k,
        link_fns_ok(s, p, k),
    ensures
        link_fns_ok(s, p, j),
    decreases k,
{
    if j < k {
        lemma_link_fns_ok(s, p, j, (k - 1) as nat);
    }
}

proof fn lemma_link_progs_ok(s: LinkV, ps: Seq<Program>, j: nat, n: nat)
    requires
        j <= n,
        link_progs_ok(s, ps, n),
    ensures
        link_progs_ok(s, ps, j),
    decreases n,
{
    if j < n {
        lemma_link_progs_ok(s, ps, j, (n - 1) as nat);
    }
}

} // verus!
