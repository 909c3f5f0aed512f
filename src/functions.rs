use vstd::prelude::*;
use crate::error::AgoError;
use crate::types::{AgoType, Val, FileStruct, entries_view, lemma_entries_view};
use crate::equality::val_eq;
use crate::casting::struct_keys;
use crate::text::{chars_of, string_of};

verus! {

/// The name of a value's kind.
pub open spec fn kind_name(v: Val) -> Seq<char> {
    match v {
        Val::Int(_) => "Int"@,
        Val::Float(_) => "Float"@,
        Val::Bool(_) => "Bool"@,
        Val::Str(_) => "String"@,
        Val::IntList(_) => "IntList"@,
        Val::FloatList(_) => "FloatList"@,
        Val::BoolList(_) => "BoolList"@,
        Val::StrList(_) => "StringList"@,
        Val::Struct(_) => "Struct"@,
        Val::ListAny(_) => "ListAny"@,
        Val::Range(_, _, _) => "Range"@,
        Val::Null => "Null"@,
    }
}

/// The name of the value's kind, as a string value.
pub fn species(val: &AgoType) -> (r: AgoType)
    ensures
        r@ == Val::Str(kind_name(val@)),
{
    let name: &str = match val {
        AgoType::Int(_) => "Int",
        AgoType::Float(_) => "Float",
        AgoType::Bool(_) => "Bool",
        AgoType::String(_) => "String",
        AgoType::IntList(_) => "IntList",
        AgoType::FloatList(_) => "FloatList",
        AgoType::BoolList(_) => "BoolList",
        AgoType::StringList(_) => "StringList",
        AgoType::Struct(_) => "Struct",
        AgoType::ListAny(_) => "ListAny",
        AgoType::Range(_) => "Range",
        AgoType::Null => "Null",
    };
    AgoType::String(name.to_owned())
}

/// Structural, kind-sensitive equality, as a boolean value.
pub fn aequalam(left: &AgoType, right: &AgoType) -> (r: AgoType)
    ensures
        r@ == Val::Bool(val_eq(left@, right@)),
{
    AgoType::Bool(left.equals(right))
}

/// The keys of a struct, in entry order.
pub fn claverum(val: &AgoType) -> (r: Result<AgoType, AgoError>)
    ensures
        match val@ {
            Val::Struct(es) => r is Ok && r->Ok_0@ == Val::StrList(es.map_values(|e: (Seq<char>, Val)| e.0)),
            _ => r == Err::<AgoType, AgoError>(AgoError::UnsupportedOperandKinds),
        },
{
    match val {
        AgoType::Struct(es) => Ok(AgoType::StringList(struct_keys(es))),
        _ => Err(AgoError::UnsupportedOperandKinds),
    }
}

/// The text that a printing or file operation takes: only a string value is textual.
pub fn text_arg(val: &AgoType) -> (r: Result<String, AgoError>)
    ensures
        match val@ {
            Val::Str(s) => r is Ok && r->Ok_0@ == s,
            _ => r == Err::<String, AgoError>(AgoError::UnsupportedOperandKinds),
        },
{
    match val {
        AgoType::String(s) => Ok(s.clone()),
        _ => Err(AgoError::UnsupportedOperandKinds),
    }
}

/// A line without its trailing line terminators (`\n` and `\r`).
pub open spec fn trim_line_end(s: Seq<char>) -> Seq<char>
    decreases s.len(),
{
    if s.len() > 0 && (s.last() == '\n' || s.last() == '\r') {
        trim_line_end(s.drop_last())
    } else {
        s
    }
}

/// Removes the trailing line terminators of a line read from input.
pub fn trim_line(line: &String) -> (r: String)
    ensures
        r@ == trim_line_end(line@),
{
    let cs = chars_of(line.as_str());
    let mut n: usize = cs.len();
    assert(cs@.subrange(0, n as int) =~= cs@);
    while n > 0 && (cs[n - 1] == '\n' || cs[n - 1] == '\r')
        invariant
            n <= cs@.len(),
            cs@ == line@,
            trim_line_end(line@) == trim_line_end(cs@.subrange(0, n as int)),
        decreases n,
    {
        let ghost p = cs@.subrange(0, n as int);
        assert(p.drop_last() =~= cs@.subrange(0, n - 1));
        n -= 1;
    }
    assert(trim_line_end(cs@.subrange(0, n as int)) == cs@.subrange(0, n as int));
    let mut kept: Vec<char> = Vec::new();
    let mut i: usize = 0;
    while i < n
        invariant
            n <= cs@.len(),
            i <= n,
            kept@ == cs@.subrange(0, i as int),
        decreases n - i,
    {
        kept.push(cs[i]);
        i += 1;
        assert(kept@ =~= cs@.subrange(0, i as int));
    }
    string_of(&kept)
}

/// The struct that describes a file: its path, its contents and its size in bytes.
pub fn file_record(file: FileStruct) -> (r: AgoType)
    ensures
        r@ == Val::Struct(seq![
            ("filenames"@, Val::Str(file.filename@)),
            ("contentes"@, Val::Str(file.content@)),
            ("filesizea"@, Val::Int(file.filesize)),
        ]),
{
    let mut es: Vec<(String, AgoType)> = Vec::new();
    es.push(("filenames".to_owned(), AgoType::String(file.filename)));
    es.push(("contentes".to_owned(), AgoType::String(file.content)));
    es.push(("filesizea".to_owned(), AgoType::Int(file.filesize)));
    proof {
        lemma_entries_view(es@);
    }
    let r = AgoType::Struct(es);
    assert(entries_view(es@) =~= seq![
        ("filenames"@, Val::Str(file.filename@)),
        ("contentes"@, Val::Str(file.content@)),
        ("filesizea"@, Val::Int(file.filesize)),
    ]);
    r
}

/// The process exit status for an integer value: its low 32 bits, as `as i32` gives them.
pub fn exit_code(code: &AgoType) -> (r: Result<i32, AgoError>)
    ensures
        match code@ {
            Val::Int(x) => r == Ok::<i32, AgoError>(x as i32),
            _ => r == Err::<i32, AgoError>(AgoError::UnsupportedOperandKinds),
        },
{
    match code {
        AgoType::Int(x) => Ok(#[verifier::truncate] (*x as i32)),
        _ => Err(AgoError::UnsupportedOperandKinds),
    }
}

} // verus!
