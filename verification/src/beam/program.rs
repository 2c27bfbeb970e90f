//! Whole beam source files: the imports they name, the type and function tables they
//! declare, and the checked program they define.
use crate::beam::front::{
    body_end, body_start, fn_checks, fn_header, fn_parse_ok, parse_fn, parse_fn_header,
    parse_struct, parse_type, struct_fields, type_ref, default_table, default_types, BodyRun,
    HeaderV, Reading,
};
use crate::beam::mach::{fields_view, table_view, same_ty, Function, FunctionV, Program, TyV, Type};
use crate::beam::parser::{
    beam_tokens, lemma_skip_fn, lemma_skip_struct, skip_fn, skip_fn_at, skip_struct,
    skip_struct_at, texts, token_view, TokenStream, TokenView,
};
use crate::table::{entries_map, key_index, seq_insert, Table};
use crate::text::str_equal;
use vstd::prelude::*;

verus! {

/// The token texts of a source text.
pub open spec fn src_texts(s: Seq<char>) -> Seq<Seq<char>> {
    beam_tokens(s).map_values(|t: TokenView| t.text)
}

/// A cursor at the first token of `s`, whose texts are `src_texts(s)`.
fn open_stream(s: &String, file: &String) -> (r: TokenStream)
    requires
        s@.len() < usize::MAX,
    ensures
        texts(r.tokens@) == src_texts(s@),
        r.index == 0,
{
    let r = TokenStream::from_string(s.clone(), file.clone());
    assert(texts(r.tokens@) =~= src_texts(s@)) by {
        assert forall|i: int| 0 <= i < r.tokens@.len() implies texts(r.tokens@)[i] == src_texts(s@)[i] by {
            assert(r.tokens@.map_values(|t: crate::beam::parser::Token| token_view(t))[i] == beam_tokens(s@)[i]);
        }
    }
    r
}

/// The imports of a file, in order: the names after `import` among its top-level items
/// (functions and structures are skipped whole); `None` where reading would stop on a
/// token that begins no item, or on `import` at the end.
pub open spec fn import_walk(toks: Seq<Seq<char>>, i: int) -> Option<Seq<Seq<char>>>
    decreases toks.len() - i,
{
    if i < 0 || i >= toks.len() {
        Some(seq![])
    } else if toks[i] == "fn"@ {
        let j = skip_fn_at(toks, i + 1);
        if i < j <= toks.len() {
            import_walk(toks, j)
        } else {
            None
        }
    } else if toks[i] == "import"@ {
        if i + 1 < toks.len() {
            match import_walk(toks, i + 2) {
                Some(r) => Some(seq![toks[i + 1]] + r),
                None => None,
            }
        } else {
            None
        }
    } else if toks[i] == "struct"@ {
        let j = skip_struct_at(toks, i + 1);
        if i < j <= toks.len() {
            import_walk(toks, j)
        } else {
            None
        }
    } else {
        None
    }
}

proof fn lemma_keywords()
    ensures
        "fn"@ == seq!['f', 'n'],
        "struct"@ == seq!['s', 't', 'r', 'u', 'c', 't'],
        "import"@ == seq!['i', 'm', 'p', 'o', 'r', 't'],
        "end"@ == seq!['e', 'n', 'd'],
{
    reveal_strlit("fn");
    reveal_strlit("struct");
    reveal_strlit("import");
    reveal_strlit("end");
    assert("fn"@ =~= seq!['f', 'n']);
    assert("struct"@ =~= seq!['s', 't', 'r', 'u', 'c', 't']);
    assert("import"@ =~= seq!['i', 'm', 'p', 'o', 'r', 't']);
    assert("end"@ =~= seq!['e', 'n', 'd']);
}

/// The names a file imports (see `import_walk`), or `None` where reading the file's
/// items would stop.
pub fn import_names(s: &String, file: &String) -> (r: Option<Vec<String>>)
    requires
        s@.len() < usize::MAX,
    ensures
        match import_walk(src_texts(s@), 0) {
            Some(ns) => r is Some && r->0@.map_values(|x: String| x@) == ns,
            None => r is None,
        },
{
    let mut toks = open_stream(s, file);
    let ghost ts = texts(toks.tokens@);
    let mut out: Vec<String> = Vec::new();
    proof {
        lemma_keywords();
        if import_walk(ts, 0) is Some {
            assert(seq![] + import_walk(ts, 0)->0 =~= import_walk(ts, 0)->0);
        }
        assert(out@.map_values(|x: String| x@) =~= seq![]);
    }
    while toks.index < toks.tokens.len()
        invariant
            toks.tokens@.len() == ts.len(),
            ts == texts(toks.tokens@),
            ts == src_texts(s@),
            toks.index <= ts.len(),
            import_walk(ts, 0) is Some ==> import_walk(ts, toks.index as int) is Some
                && import_walk(ts, 0)->0 == out@.map_values(|x: String| x@) + import_walk(ts, toks.index as int)->0,
            import_walk(ts, 0) is None ==> import_walk(ts, toks.index as int) is None,
        decreases ts.len() - toks.index,
    {
        let ghost i = toks.index as int;
        proof {
            lemma_keywords();
        }
        let n = toks.next().unwrap();
        assert(n.text@ == ts[i]);
        if str_equal(n.text.as_str(), "fn") {
            proof {
                lemma_skip_fn(ts, i + 1);
            }
            let _ = skip_fn(&mut toks);
        } else if str_equal(n.text.as_str(), "import") {
            match toks.next() {
                Some(name) => {
                    assert(name.text@ == ts[i + 1]);
                    let ghost prev = out@;
                    out.push(name.text);
                    proof {
                        if import_walk(ts, 0) is Some {
                            let rest = import_walk(ts, i + 2)->0;
                            assert(out@.map_values(|x: String| x@) =~= prev.map_values(|x: String| x@).push(ts[i + 1]));
                            assert(out@.map_values(|x: String| x@) + rest =~= prev.map_values(|x: String| x@) + (seq![ts[i + 1]] + rest));
                        }
                    }
                },
                None => {
                    return None;
                },
            }
        } else if str_equal(n.text.as_str(), "struct") {
            proof {
                lemma_skip_struct(ts, i + 1);
            }
            let _ = skip_struct(&mut toks);
        } else {
            return None;
        }
    }
    proof {
        if import_walk(ts, 0) is Some {
            assert(out@.map_values(|x: String| x@) + seq![] =~= out@.map_values(|x: String| x@));
        }
    }
    Some(out)
}

/// The functions of a program by their views, in table order.
pub open spec fn fview(p: Program) -> Seq<(Seq<char>, FunctionV)> {
    p.functions.seq().map_values(|e: (Seq<char>, Function)| (e.0, e.1@))
}

proof fn lemma_key_index_views(s: Seq<(Seq<char>, Function)>, k: Seq<char>, i: int)
    requires
        0 <= i,
    ensures
        key_index(s.map_values(|e: (Seq<char>, Function)| (e.0, e.1@)), k, i) == key_index(s, k, i),
    decreases s.len() - i,
{
    if i < s.len() {
        lemma_key_index_views(s, k, i + 1);
    }
}

proof fn lemma_key_index_range<K, V>(s: Seq<(K, V)>, k: K, i: int)
    requires
        0 <= i,
    ensures
        key_index(s, k, i) == -1 || (i <= key_index(s, k, i) < s.len() && s[key_index(s, k, i)].0 == k),
    decreases s.len() - i,
{
    if i < s.len() {
        lemma_key_index_range(s, k, i + 1);
    }
}

proof fn lemma_fview_insert(old_s: Seq<(Seq<char>, Function)>, new_s: Seq<(Seq<char>, Function)>, k: Seq<char>, f: Function)
    requires
        new_s == seq_insert(old_s, k, f),
    ensures
        new_s.map_values(|e: (Seq<char>, Function)| (e.0, e.1@)) == seq_insert(
            old_s.map_values(|e: (Seq<char>, Function)| (e.0, e.1@)),
            k,
            f@,
        ),
{
    lemma_key_index_views(old_s, k, 0);
    lemma_key_index_range(old_s, k, 0);
    let ov = old_s.map_values(|e: (Seq<char>, Function)| (e.0, e.1@));
    let nv = new_s.map_values(|e: (Seq<char>, Function)| (e.0, e.1@));
    let i = key_index(old_s, k, 0);
    if i >= 0 {
        assert(nv =~= ov.update(i, (k, f@)));
    } else {
        assert(nv =~= ov.push((k, f@)));
    }
}

/// `ts` with the first `k` types of `new` added, each unless already present.
pub open spec fn type_merge(ts: Seq<(Seq<char>, TyV)>, new: Seq<(Seq<char>, TyV)>, k: nat) -> Seq<(Seq<char>, TyV)>
    decreases k,
{
    if k == 0 {
        ts
    } else {
        let prev = type_merge(ts, new, (k - 1) as nat);
        if prev.contains(new[k - 1]) {
            prev
        } else {
            prev.push(new[k - 1])
        }
    }
}

/// `fs` with the first `k` functions of `new` stored under their names.
pub open spec fn fn_merge(fs: Seq<(Seq<char>, FunctionV)>, new: Seq<(Seq<char>, FunctionV)>, k: nat) -> Seq<(Seq<char>, FunctionV)>
    decreases k,
{
    if k == 0 {
        fs
    } else {
        seq_insert(fn_merge(fs, new, (k - 1) as nat), new[k - 1].0, new[k - 1].1)
    }
}

fn contains_type(ts: &Vec<(String, Type)>, e: &(String, Type)) -> (r: bool)
    ensures
        r == table_view(ts@).contains((e.0@, e.1@)),
{
    let mut i: usize = 0;
    while i < ts.len()
        invariant
            i <= ts@.len(),
            forall|j: int| 0 <= j < i ==> #[trigger] table_view(ts@)[j] != (e.0@, e.1@),
        decreases ts@.len() - i,
    {
        if str_equal(ts[i].0.as_str(), e.0.as_str()) && same_ty(&ts[i].1, &e.1) {
            assert(table_view(ts@)[i as int] == (e.0@, e.1@));
            return true;
        }
        assert(table_view(ts@)[i as int] == (ts@[i as int].0@, ts@[i as int].1@));
        i += 1;
    }
    false
}

/// Adds an imported program: its types, each unless already present, and its
/// functions, each stored under its name.
pub fn merge_import(prog: &mut Program, np: &Program)
    requires
        old(prog).functions.wf(),
    ensures
        final(prog).functions.wf(),
        table_view(final(prog).types@) == type_merge(table_view(old(prog).types@), table_view(np.types@), np.types@.len()),
        fview(*final(prog)) == fn_merge(fview(*old(prog)), fview(*np), fview(*np).len()),
{
    let ghost t0 = table_view(prog.types@);
    let ghost nt = table_view(np.types@);
    let mut i: usize = 0;
    while i < np.types.len()
        invariant
            i <= np.types@.len(),
            nt == table_view(np.types@),
            table_view(prog.types@) == type_merge(t0, nt, i as nat),
            prog.functions == old(prog).functions,
        decreases np.types@.len() - i,
    {
        assert(nt[i as int] == (np.types@[i as int].0@, np.types@[i as int].1@));
        let e = (np.types[i].0.clone(), np.types[i].1.clone());
        if !contains_type(&prog.types, &e) {
            let ghost prev = prog.types@;
            prog.types.push(e);
            assert(table_view(prog.types@) =~= table_view(prev).push(nt[i as int]));
        }
        i += 1;
    }
    let ghost f0 = fview(*prog);
    let ghost nf = fview(*np);
    let n = np.functions.count();
    let mut k: usize = 0;
    while k < n
        invariant
            k <= n,
            n == np.functions.seq().len(),
            nf == fview(*np),
            prog.functions.wf(),
            fview(*prog) == fn_merge(f0, nf, k as nat),
            table_view(prog.types@) == type_merge(t0, nt, np.types@.len()),
        decreases n - k,
    {
        let (name, f) = np.functions.entry(k);
        let g = f.clone();
        let ghost before = prog.functions.seq();
        prog.functions.insert(name.clone(), g);
        proof {
            lemma_fview_insert(before, prog.functions.seq(), name@, g);
        }
        k += 1;
    }
}

/// The structures a file declares, in order, read after its other items are skipped
/// (a structure body is read up to its first `end`).
pub open spec fn struct_walk(toks: Seq<Seq<char>>, i: int) -> Reading<Seq<(Seq<char>, TyV)>>
    decreases toks.len() - i,
{
    if i < 0 || i >= toks.len() {
        Reading::Read(seq![], i)
    } else if toks[i] == "fn"@ {
        let j = skip_fn_at(toks, i + 1);
        if i < j <= toks.len() {
            struct_walk(toks, j)
        } else {
            Reading::Stuck
        }
    } else if toks[i] == "import"@ {
        struct_walk(toks, if i + 2 <= toks.len() { i + 2 } else { toks.len() as int })
    } else if toks[i] == "struct"@ {
        if i + 1 < toks.len() {
            match struct_fields(toks, i + 2) {
                Reading::Read(fs, e) => if i < e <= toks.len() {
                    match struct_walk(toks, e) {
                        Reading::Read(rest, e2) => Reading::Read(
                            seq![(toks[i + 1], TyV::Struct { name: toks[i + 1], fields: fs })] + rest,
                            e2,
                        ),
                        other => other,
                    }
                } else {
                    Reading::Stuck
                },
                _ => Reading::Stuck,
            }
        } else {
            Reading::Stuck
        }
    } else {
        Reading::Stuck
    }
}

/// The function headers a file declares, in order, read against type table `table`
/// after its other items are skipped.
pub open spec fn header_walk(toks: Seq<Seq<char>>, i: int, table: Seq<(Seq<char>, TyV)>) -> Reading<Seq<HeaderV>>
    decreases toks.len() - i,
{
    if i < 0 || i >= toks.len() {
        Reading::Read(seq![], i)
    } else if toks[i] == "fn"@ {
        match fn_header(toks, i + 1, table) {
            Reading::Read(h, e) => {
                let j = skip_fn_at(toks, e);
                if i < j <= toks.len() {
                    match header_walk(toks, j, table) {
                        Reading::Read(rest, e2) => Reading::Read(seq![h] + rest, e2),
                        other => other,
                    }
                } else {
                    Reading::Stuck
                }
            },
            Reading::Refused => Reading::Refused,
            Reading::Stuck => Reading::Stuck,
        }
    } else if toks[i] == "import"@ {
        header_walk(toks, if i + 2 <= toks.len() { i + 2 } else { toks.len() as int }, table)
    } else if toks[i] == "struct"@ {
        let j = skip_struct_at(toks, i + 1);
        if i < j <= toks.len() {
            header_walk(toks, j, table)
        } else {
            Reading::Stuck
        }
    } else {
        Reading::Stuck
    }
}

/// The model of a program: its type table and its functions in order.
pub struct ProgV {
    pub types: Seq<(Seq<char>, TyV)>,
    pub fns: Seq<(Seq<char>, FunctionV)>,
}

/// The built-in types merged with the first `n` imported programs.
pub open spec fn imports_merged(imported: Seq<Program>, n: nat) -> ProgV
    decreases n,
{
    if n == 0 {
        ProgV { types: default_table(), fns: seq![] }
    } else {
        let prev = imports_merged(imported, (n - 1) as nat);
        let p = imported[n - 1];
        ProgV {
            types: type_merge(prev.types, table_view(p.types@), p.types@.len()),
            fns: fn_merge(prev.fns, fview(p), fview(p).len()),
        }
    }
}

/// A function with header `h` and no commands.
pub open spec fn header_fn(h: HeaderV) -> FunctionV {
    FunctionV { arguments: h.args, return_type: h.ret, cmds: seq![], labels: Map::empty(), display_name: h.name }
}

/// `fs` with the functions of headers `hs` stored under their names, in order.
pub open spec fn headers_into(fs: Seq<(Seq<char>, FunctionV)>, hs: Seq<HeaderV>) -> Seq<(Seq<char>, FunctionV)>
    decreases hs.len(),
{
    if hs.len() == 0 {
        fs
    } else {
        seq_insert(headers_into(fs, hs.drop_last()), hs.last().name, header_fn(hs.last()))
    }
}

/// A structure walk never ends in an error.
proof fn lemma_struct_walk_not_refused(toks: Seq<Seq<char>>, i: int)
    ensures
        !(struct_walk(toks, i) is Refused),
    decreases toks.len() - i,
{
    if 0 <= i < toks.len() {
        if toks[i] == "fn"@ {
            let j = skip_fn_at(toks, i + 1);
            if i < j <= toks.len() {
                lemma_struct_walk_not_refused(toks, j);
            }
        } else if toks[i] == "import"@ {
            lemma_struct_walk_not_refused(toks, if i + 2 <= toks.len() { i + 2 } else { toks.len() as int });
        } else if toks[i] == "struct"@ && i + 1 < toks.len() {
            if struct_fields(toks, i + 2) is Read {
                let e = struct_fields(toks, i + 2)->Read_1;
                if i < e <= toks.len() {
                    lemma_struct_walk_not_refused(toks, e);
                }
            }
        }
    }
}

/// The declarations of source `s` with programs `imported`: the built-in types, the
/// imported types and functions, the declared structures, and a function without
/// commands for each declared header.
pub open spec fn preprocessed(s: Seq<char>, imported: Seq<Program>) -> Reading<ProgV> {
    let toks = src_texts(s);
    let m = imports_merged(imported, imported.len());
    match struct_walk(toks, 0) {
        Reading::Read(sts, _) => {
            let types = m.types + sts;
            match header_walk(toks, 0, types) {
                Reading::Read(hs, _) => Reading::Read(ProgV { types, fns: headers_into(m.fns, hs) }, 0),
                Reading::Refused => Reading::Refused,
                Reading::Stuck => Reading::Stuck,
            }
        },
        Reading::Refused => Reading::Refused,
        Reading::Stuck => Reading::Stuck,
    }
}

proof fn lemma_struct_fields_pos(toks: Seq<Seq<char>>, i: int)
    ensures
        struct_fields(toks, i) is Read ==> i < struct_fields(toks, i)->Read_1 <= toks.len(),
    decreases toks.len() - i,
{
    if 0 <= i < toks.len() && toks[i] != "end"@ && i + 1 < toks.len() {
        lemma_struct_fields_pos(toks, i + 2);
    }
}

proof fn lemma_header_end(toks: Seq<Seq<char>>, i: int, table: Seq<(Seq<char>, TyV)>)
    requires
        0 <= i,
    ensures
        fn_header(toks, i, table) is Read ==> i < fn_header(toks, i, table)->Read_1 <= toks.len(),
{
    if 0 <= i && i + 1 < toks.len() {
        lemma_header_args_end(toks, i + 2, table);
    }
}

proof fn lemma_header_args_end(toks: Seq<Seq<char>>, j: int, table: Seq<(Seq<char>, TyV)>)
    requires
        0 <= j <= toks.len(),
    ensures
        crate::beam::front::header_args(toks, j, table) is Read ==> j <= crate::beam::front::header_args(toks, j, table)->Read_1 <= toks.len(),
    decreases toks.len() - j,
{
    if j < toks.len() && toks[j] != ":"@ && j + 1 < toks.len() {
        lemma_header_args_end(toks, j + 2, table);
    }
}

/// Reads the declarations of a file (see `preprocessed`), given the programs it
/// imports, in the order of its imports (each file once).
pub fn preprocess_file(string: String, file: String, imported: Vec<Program>) -> (r: Result<Program, String>)
    requires
        string@.len() < usize::MAX,
        import_walk(src_texts(string@), 0) is Some,
        !(preprocessed(string@, imported@) is Stuck),
    ensures
        match preprocessed(string@, imported@) {
            Reading::Read(pv, _) => r is Ok && r->Ok_0.functions.wf() && table_view(r->Ok_0.types@) == pv.types
                && fview(r->Ok_0) == pv.fns,
            _ => r is Err,
        },
{
    let mut out = Program { types: default_types(), functions: Table::new() };
    assert(fview(out) =~= seq![]);
    let mut n: usize = 0;
    while n < imported.len()
        invariant
            n <= imported@.len(),
            out.functions.wf(),
            table_view(out.types@) == imports_merged(imported@, n as nat).types,
            fview(out) == imports_merged(imported@, n as nat).fns,
        decreases imported@.len() - n,
    {
        merge_import(&mut out, &imported[n]);
        n += 1;
    }
    let ghost m = imports_merged(imported@, imported@.len());
    let mut toks = open_stream(&string, &file);
    let ghost ts = texts(toks.tokens@);
    proof {
        lemma_keywords();
        lemma_struct_walk_not_refused(ts, 0);
        assert(table_view(out.types@) + struct_walk(ts, 0)->Read_0 =~= m.types + struct_walk(ts, 0)->Read_0);
    }
    let ghost t_start = table_view(out.types@);
    while toks.index < toks.tokens.len()
        invariant
            toks.tokens@.len() == ts.len(),
            ts == texts(toks.tokens@),
            ts == src_texts(string@),
            toks.index <= ts.len(),
            out.functions.wf(),
            fview(out) == m.fns,
            struct_walk(ts, toks.index as int) is Read,
            struct_walk(ts, 0) is Read,
            t_start + struct_walk(ts, 0)->Read_0 == table_view(out.types@) + struct_walk(ts, toks.index as int)->Read_0,
            t_start == m.types,
        decreases ts.len() - toks.index,
    {
        let ghost i = toks.index as int;
        proof {
            lemma_keywords();
        }
        let n = toks.next().unwrap();
        assert(n.text@ == ts[i]);
        if str_equal(n.text.as_str(), "fn") {
            proof {
                lemma_skip_fn(ts, i + 1);
                lemma_struct_walk_not_refused(ts, skip_fn_at(ts, i + 1));
            }
            let _ = skip_fn(&mut toks);
        } else if str_equal(n.text.as_str(), "import") {
            proof {
                lemma_struct_walk_not_refused(ts, if i + 2 <= ts.len() { i + 2 } else { ts.len() as int });
            }
            let _ = toks.next();
        } else if str_equal(n.text.as_str(), "struct") {
            proof {
                lemma_struct_fields_pos(ts, i + 2);
                lemma_struct_walk_not_refused(ts, struct_fields(ts, i + 2)->Read_1);
            }
            let ghost before = table_view(out.types@);
            let st = parse_struct(&mut toks, out.types.as_slice()).unwrap();
            let ghost e = (st.0@, st.1@);
            out.types.push(st);
            proof {
                let rest = struct_walk(ts, toks.index as int)->Read_0;
                assert(table_view(out.types@) =~= before.push(e));
                assert(table_view(out.types@) + rest =~= before + (seq![e] + rest));
            }
        } else {
            assert(false);
        }
    }
    let ghost types = table_view(out.types@);
    assert(types + seq![] =~= types);
    assert(types == m.types + struct_walk(ts, 0)->Read_0);
    let mut toks = open_stream(&string, &file);
    let ghost hs0 = header_walk(ts, 0, types);
    proof {
        if hs0 is Read {
            assert(seq![] + hs0->Read_0 =~= hs0->Read_0);
        }
    }
    let ghost mut hsofar: Seq<HeaderV> = seq![];
    while toks.index < toks.tokens.len()
        invariant
            toks.tokens@.len() == ts.len(),
            ts == texts(toks.tokens@),
            toks.index <= ts.len(),
            types == table_view(out.types@),
            out.functions.wf(),
            hs0 == header_walk(ts, 0, types),
            !(header_walk(ts, toks.index as int, types) is Stuck),
            header_walk(ts, toks.index as int, types) is Refused ==> hs0 is Refused,
            header_walk(ts, toks.index as int, types) is Read ==> hs0 == Reading::Read(
                hsofar + header_walk(ts, toks.index as int, types)->Read_0,
                header_walk(ts, toks.index as int, types)->Read_1,
            ),
            fview(out) == headers_into(m.fns, hsofar),
            types == m.types + struct_walk(ts, 0)->Read_0,
            struct_walk(ts, 0) is Read,
            ts == src_texts(string@),
            m == imports_merged(imported@, imported@.len()),
        decreases ts.len() - toks.index,
    {
        let ghost i = toks.index as int;
        proof {
            lemma_keywords();
        }
        let n = toks.next().unwrap();
        assert(n.text@ == ts[i]);
        if str_equal(n.text.as_str(), "fn") {
            proof {
                lemma_header_end(ts, i + 1, types);
            }
            let f = parse_fn_header(&mut toks, out.types.as_slice())?;
            proof {
                lemma_skip_fn(ts, toks.index as int);
            }
            let _ = skip_fn(&mut toks);
            let ghost h = fn_header(ts, i + 1, types)->Read_0;
            let ghost before = out.functions.seq();
            assert(f.1@ == header_fn(h)) by {
                assert(f.1@.cmds =~= seq![]);
                assert(f.1@.labels =~= Map::empty());
            }
            out.functions.insert(f.0, f.1);
            proof {
                lemma_fview_insert(before, out.functions.seq(), h.name, f.1);
                let old_h = hsofar;
                hsofar = hsofar.push(h);
                assert(hsofar.drop_last() =~= old_h);
                let rest = header_walk(ts, toks.index as int, types)->Read_0;
                if header_walk(ts, toks.index as int, types) is Read {
                    assert(hsofar + rest =~= old_h + (seq![h] + rest));
                }
            }
        } else if str_equal(n.text.as_str(), "import") {
            let _ = toks.next();
        } else if str_equal(n.text.as_str(), "struct") {
            proof {
                lemma_skip_struct(ts, i + 1);
            }
            let _ = skip_struct(&mut toks);
        } else {
            assert(false);
        }
    }
    proof {
        assert(hsofar + seq![] =~= hsofar);
    }
    Ok(out)
}

/// A structure type with each field's type resolved by its name in `table`; `None`
/// when a name is not in the table. Other types stay as they are.
pub open spec fn resolve_type(t: TyV, table: Seq<(Seq<char>, TyV)>) -> Option<TyV> {
    match t {
        TyV::Struct { name, fields } => if forall|i: int| 0 <= i < fields.len() ==> (#[trigger] type_ref(fields[i].1.name, table)) is Some {
            Some(TyV::Struct {
                name,
                fields: fields.map_values(|f: (Seq<char>, crate::beam::mach::STV)| (f.0, type_ref(f.1.name, table)->0)),
            })
        } else {
            None
        },
        _ => Some(t),
    }
}

/// The type table with every structure's fields resolved in it (see `resolve_type`).
pub open spec fn resolve_types(ts: Seq<(Seq<char>, TyV)>) -> Option<Seq<(Seq<char>, TyV)>> {
    if forall|i: int| 0 <= i < ts.len() ==> (#[trigger] resolve_type(ts[i].1, ts)) is Some {
        Some(ts.map_values(|e: (Seq<char>, TyV)| (e.0, resolve_type(e.1, ts)->0)))
    } else {
        None
    }
}

fn resolve_struct_fields(fields: &Vec<(String, crate::beam::mach::ShallowType)>, types: &Vec<(String, Type)>, file: &String) -> (r: Result<Vec<(String, crate::beam::mach::ShallowType)>, String>)
    ensures
        (forall|i: int| 0 <= i < fields@.len() ==> (#[trigger] type_ref(fields@[i].1@.name, table_view(types@))) is Some) ==> r is Ok
            && fields_view(r->Ok_0@) == fields_view(fields@).map_values(|f: (Seq<char>, crate::beam::mach::STV)| (f.0, type_ref(f.1.name, table_view(types@))->0)),
        !(forall|i: int| 0 <= i < fields@.len() ==> (#[trigger] type_ref(fields@[i].1@.name, table_view(types@))) is Some) ==> r is Err,
{
    let mut out: Vec<(String, crate::beam::mach::ShallowType)> = Vec::new();
    let mut j: usize = 0;
    while j < fields.len()
        invariant
            j <= fields@.len(),
            out@.len() == j,
            forall|k: int| 0 <= k < j ==> (#[trigger] type_ref(fields@[k].1@.name, table_view(types@))) is Some,
            forall|k: int| 0 <= k < j ==> (#[trigger] out@[k]).0@ == fields@[k].0@ && out@[k].1@ == type_ref(fields@[k].1@.name, table_view(types@))->0,
        decreases fields@.len() - j,
    {
        let tok = crate::beam::parser::Token { text: fields[j].1.name.clone(), file: file.clone(), line: 0 };
        let mut strm = TokenStream { tokens: vec![tok], index: 0 };
        assert(strm.tokens@[0].text@ == fields@[j as int].1@.name);
        let t = match parse_type(&mut strm, types.as_slice()) {
            Ok(t) => t,
            Err(e) => {
                assert(type_ref(fields@[j as int].1@.name, table_view(types@)) is None);
                return Err(e);
            },
        };
        out.push((fields[j].0.clone(), t));
        j += 1;
    }
    assert(fields_view(out@) =~= fields_view(fields@).map_values(|f: (Seq<char>, crate::beam::mach::STV)| (f.0, type_ref(f.1.name, table_view(types@))->0)));
    Ok(out)
}

fn resolve_all(types: &Vec<(String, Type)>, file: &String) -> (r: Result<Vec<(String, Type)>, String>)
    ensures
        match resolve_types(table_view(types@)) {
            Some(ts) => r is Ok && table_view(r->Ok_0@) == ts,
            None => r is Err,
        },
{
    let ghost tv = table_view(types@);
    let mut out: Vec<(String, Type)> = Vec::new();
    let mut i: usize = 0;
    while i < types.len()
        invariant
            i <= types@.len(),
            tv == table_view(types@),
            out@.len() == i,
            forall|k: int| 0 <= k < i ==> (#[trigger] resolve_type(tv[k].1, tv)) is Some,
            forall|k: int| 0 <= k < i ==> (#[trigger] out@[k]).0@ == tv[k].0 && out@[k].1@ == resolve_type(tv[k].1, tv)->0,
        decreases types@.len() - i,
    {
        assert(tv[i as int] == (types@[i as int].0@, types@[i as int].1@));
        match &types[i].1 {
            Type::Struct { name, fields } => {
                let nf = match resolve_struct_fields(fields, types, file) {
                    Ok(nf) => nf,
                    Err(e) => {
                        let ghost fv = fields_view(fields@);
                        let ghost k = choose|k: int| 0 <= k < fields@.len() && !((#[trigger] type_ref(fields@[k].1@.name, table_view(types@))) is Some);
                        assert(fv[k].1.name == fields@[k].1@.name);
                        assert(!(type_ref(fv[k].1.name, tv) is Some));
                        assert(!(resolve_type(tv[i as int].1, tv) is Some));
                        return Err(e);
                    },
                };
                let t = Type::Struct { name: name.clone(), fields: nf };
                out.push((types[i].0.clone(), t));
            },
            _ => {
                out.push((types[i].0.clone(), types[i].1.clone()));
            },
        }
        i += 1;
    }
    assert(table_view(out@) =~= tv.map_values(|e: (Seq<char>, TyV)| (e.0, resolve_type(e.1, tv)->0)));
    Ok(out)
}

/// The state of reading a file's functions: the token texts, the position, the
/// functions so far.
pub struct WalkV {
    pub ts: Seq<Seq<char>>,
    pub i: int,
    pub fns: Seq<(Seq<char>, FunctionV)>,
}

/// How reading a file's functions stands.
pub enum WalkRun {
    Stuck,
    Refused,
    Running(WalkV),
    Finished(WalkV),
}

/// One item read: a function is read whole and stored under its name; an import's name
/// and a structure are skipped; anything else is an error. At the end of the tokens,
/// reading is finished.
pub open spec fn walk_step(w: WalkV, table: Seq<(Seq<char>, TyV)>) -> WalkRun {
    if w.i < 0 || w.i >= w.ts.len() {
        WalkRun::Finished(w)
    } else if w.ts[w.i] == "fn"@ {
        if !fn_parse_ok(w.ts, w.i + 1, table) {
            WalkRun::Stuck
        } else {
            match fn_header(w.ts, w.i + 1, table) {
                Reading::Read(h, e) => match body_end(body_start(h, e, w.ts), table, h.name) {
                    BodyRun::Finished(b) => WalkRun::Running(
                        WalkV {
                            ts: b.ts,
                            i: b.i,
                            fns: seq_insert(
                                w.fns,
                                h.name,
                                FunctionV {
                                    arguments: h.args,
                                    return_type: h.ret,
                                    cmds: b.cmds.update(0, crate::beam::mach::CmdV::DeclareVariables { values: b.vts }),
                                    labels: b.labels,
                                    display_name: h.name,
                                },
                            ),
                        },
                    ),
                    _ => WalkRun::Refused,
                },
                _ => WalkRun::Refused,
            }
        }
    } else if w.ts[w.i] == "import"@ {
        WalkRun::Running(WalkV { i: if w.i + 2 <= w.ts.len() { w.i + 2 } else { w.ts.len() as int }, ..w })
    } else if w.ts[w.i] == "struct"@ {
        WalkRun::Running(WalkV { i: skip_struct_at(w.ts, w.i + 1), ..w })
    } else {
        WalkRun::Refused
    }
}

/// The reading state after `k` items.
pub open spec fn walk_run(w: WalkV, table: Seq<(Seq<char>, TyV)>, k: nat) -> WalkRun
    decreases k,
{
    if k == 0 {
        WalkRun::Running(w)
    } else {
        match walk_run(w, table, (k - 1) as nat) {
            WalkRun::Running(c) => walk_step(c, table),
            other => other,
        }
    }
}

/// Reading has ended, well or with an error.
pub open spec fn walk_ended(r: WalkRun) -> bool {
    r is Finished || r is Refused
}

/// How reading the functions ends.
pub open spec fn walk_end(w: WalkV, table: Seq<(Seq<char>, TyV)>) -> WalkRun {
    walk_run(w, table, choose|k: nat| walk_ended(walk_run(w, table, k)))
}

proof fn lemma_walk_absorb(w: WalkV, table: Seq<(Seq<char>, TyV)>, k: nat, k2: nat)
    requires
        k <= k2,
        !(walk_run(w, table, k) is Running),
    ensures
        walk_run(w, table, k2) == walk_run(w, table, k),
    decreases k2,
{
    if k < k2 {
        lemma_walk_absorb(w, table, k, (k2 - 1) as nat);
    }
}

/// A program passes its checks: every function's commands do (see `fn_checks`).
pub open spec fn checks_hold(types: Seq<(Seq<char>, TyV)>, fns: Seq<(Seq<char>, FunctionV)>) -> bool {
    forall|i: int| 0 <= i < fns.len() ==> fn_checks(types, entries_map(fns), #[trigger] fns[i].1)
}

/// What parsing source `s` with imported programs `imported` comes to: its
/// declarations (see `preprocessed`), its structures' fields resolved in its type
/// table (see `resolve_types`), then its functions read in order (see `walk_step`).
pub open spec fn program_reading(s: Seq<char>, imported: Seq<Program>) -> Reading<ProgV> {
    match preprocessed(s, imported) {
        Reading::Read(pv, _) => match resolve_types(pv.types) {
            None => Reading::Refused,
            Some(types) => match walk_end(WalkV { ts: src_texts(s), i: 0, fns: pv.fns }, types) {
                WalkRun::Finished(w) => Reading::Read(ProgV { types, fns: w.fns }, 0),
                WalkRun::Refused => Reading::Refused,
                _ => Reading::Stuck,
            },
        },
        Reading::Refused => Reading::Refused,
        Reading::Stuck => Reading::Stuck,
    }
}

/// Parsing `s` does not panic: its items are known, its declarations read, its
/// functions read to the end, and the program it makes passes its checks.
pub open spec fn program_ok(s: Seq<char>, imported: Seq<Program>) -> bool {
    &&& s.len() < usize::MAX
    &&& import_walk(src_texts(s), 0) is Some
    &&& !(preprocessed(s, imported) is Stuck)
    &&& (preprocessed(s, imported) is Read && resolve_types(preprocessed(s, imported)->Read_0.types) is Some)
        ==> exists|k: nat| walk_ended(walk_run(
            WalkV { ts: src_texts(s), i: 0, fns: preprocessed(s, imported)->Read_0.fns },
            resolve_types(preprocessed(s, imported)->Read_0.types)->0,
            k,
        ))
    &&& program_reading(s, imported) is Read ==> checks_hold(
        program_reading(s, imported)->Read_0.types,
        program_reading(s, imported)->Read_0.fns,
    )
}

proof fn lemma_entries_map_views(s: Seq<(Seq<char>, Function)>)
    ensures
        entries_map(s).map_values(|f: Function| f@) == entries_map(
            s.map_values(|e: (Seq<char>, Function)| (e.0, e.1@)),
        ),
    decreases s.len(),
{
    if s.len() > 0 {
        lemma_entries_map_views(s.drop_last());
        assert(s.drop_last().map_values(|e: (Seq<char>, Function)| (e.0, e.1@)) =~= s.map_values(
            |e: (Seq<char>, Function)| (e.0, e.1@),
        ).drop_last());
        assert(entries_map(s).map_values(|f: Function| f@) =~= entries_map(
            s.map_values(|e: (Seq<char>, Function)| (e.0, e.1@)),
        ));
    } else {
        assert(entries_map(s).map_values(|f: Function| f@) =~= entries_map(
            s.map_values(|e: (Seq<char>, Function)| (e.0, e.1@)),
        ));
    }
}

/// Parses a source file into a checked program (see `program_reading`), given the
/// programs its imports name, in order.
pub fn parse_to_program(string: String, file: String, imported: Vec<Program>) -> (r: Result<Program, String>)
    requires
        program_ok(string@, imported@),
    ensures
        match program_reading(string@, imported@) {
            Reading::Read(pv, _) => r is Ok && r->Ok_0.functions.wf() && table_view(r->Ok_0.types@) == pv.types
                && fview(r->Ok_0) == pv.fns,
            _ => r is Err,
        },
{
    let mut out = preprocess_file(string.clone(), file.clone(), imported)?;
    let ghost pv = preprocessed(string@, imported@)->Read_0;
    let tnew = resolve_all(&out.types, &file)?;
    out.types = tnew;
    let ghost table = table_view(out.types@);
    let mut tokens = open_stream(&string, &file);
    let ghost w0 = WalkV { ts: src_texts(string@), i: 0, fns: pv.fns };
    let ghost kk = choose|k: nat| walk_ended(walk_run(w0, table, k));
    let ghost mut c: nat = 0;
    proof {
        lemma_keywords();
        assert(walk_end(w0, table) == walk_run(w0, table, kk));
    }
    loop
        invariant_except_break
            walk_run(w0, table, c) == WalkRun::Running(WalkV { ts: texts(tokens.tokens@), i: tokens.index as int, fns: fview(out) }),
            tokens.index <= tokens.tokens@.len(),
            c < kk,
        invariant
            table == table_view(out.types@),
            walk_ended(walk_run(w0, table, kk)),
            walk_end(w0, table) == walk_run(w0, table, kk),
            out.functions.wf(),
            program_ok(string@, imported@),
            preprocessed(string@, imported@) == Reading::Read(pv, 0),
            resolve_types(pv.types) == Some(table),
            w0 == (WalkV { ts: src_texts(string@), i: 0, fns: pv.fns }),
        ensures
            walk_run(w0, table, c) == WalkRun::Finished(WalkV { ts: texts(tokens.tokens@), i: tokens.index as int, fns: fview(out) }),
        decreases kk - c,
    {
        let ghost cur = walk_run(w0, table, c)->Running_0;
        proof {
            lemma_keywords();
            assert(walk_run(w0, table, c + 1) == walk_step(cur, table));
            if walk_step(cur, table) is Stuck {
                lemma_walk_absorb(w0, table, c + 1, kk);
            }
        }
        let ghost i = tokens.index as int;
        let n = match tokens.next() {
            Some(n) => n,
            None => {
                proof {
                    c = c + 1;
                }
                break;
            },
        };
        assert(n.text@ == cur.ts[i]);
        if str_equal(n.text.as_str(), "fn") {
            match parse_fn(&mut tokens, out.types.as_slice(), file.clone()) {
                Ok((name, func)) => {
                    let ghost before = out.functions.seq();
                    let ghost fv = func@;
                    out.functions.insert(name, func);
                    proof {
                        lemma_fview_insert(before, out.functions.seq(), name@, func);
                    }
                },
                Err(e) => {
                    proof {
                        lemma_walk_absorb(w0, table, c + 1, kk);
                    }
                    return Err(e);
                },
            }
        } else if str_equal(n.text.as_str(), "import") {
            let _ = tokens.next();
        } else if str_equal(n.text.as_str(), "struct") {
            proof {
                lemma_skip_struct(cur.ts, i + 1);
            }
            let _ = skip_struct(&mut tokens);
        } else {
            proof {
                lemma_walk_absorb(w0, table, c + 1, kk);
            }
            let mut msg = String::from_str("unexepected token:");
            crate::text::push_str(&mut msg, crate::text::debug_pretty(n.text.as_str()).as_str());
            crate::text::push_str(&mut msg, " file:");
            crate::text::push_str(&mut msg, crate::text::debug_pretty(&n.file).as_str());
            crate::text::push_str(&mut msg, " line:");
            crate::text::push_str(&mut msg, crate::text::debug_pretty(&n.line).as_str());
            return Err(msg);
        }
        proof {
            c = c + 1;
            if kk <= c {
                lemma_walk_absorb(w0, table, kk, c);
            }
        }
    }
    proof {
        if c <= kk {
            lemma_walk_absorb(w0, table, c, kk);
        } else {
            lemma_walk_absorb(w0, table, kk, c);
        }
        lemma_entries_map_views(out.functions.seq());
        assert(crate::beam::front::fns_view(out) == entries_map(fview(out)));
        assert forall|j: int| 0 <= j < out.functions.seq().len() implies crate::beam::front::fn_checks(
            table_view(out.types@),
            crate::beam::front::fns_view(out),
            #[trigger] out.functions.seq()[j].1@,
        ) by {
            assert(fview(out)[j].1 == out.functions.seq()[j].1@);
        }
    }
    let ghost outv = fview(out);
    let ghost outt = table_view(out.types@);
    let res = crate::beam::front::fixups(out);
    proof {
        if res is Ok {
            assert(fview(res->Ok_0) =~= outv);
        }
    }
    res
}

} // verus!
