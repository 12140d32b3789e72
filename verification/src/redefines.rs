//! REDEFINES clauses as Rust code: a byte-array buffer struct, an alias struct and a
//! `From` impl between them.
//!
//! ```text
//! 01 WS-BUFFER PIC X(10).
//! 01 WS-NAME REDEFINES WS-BUFFER.
//!    05 WS-FIRST PIC X(5).
//!    05 WS-LAST  PIC X(5).
//! ```
//! becomes `struct WsBuffer([u8; 10]);`, `struct WsName { ws_first: String, ws_last: String }`
//! and `impl From<WsBuffer> for WsName { ... }`.
use vstd::prelude::*;
use vstd::string::StringExecFns;

use crate::sql_gen::{rust_var, to_rust_var};
use crate::text::{
    lemma_join_split, lemma_occurs_between, occurs_in, char_to_uppercase, char_upper, decimal, join, join_exec, push_char, push_decimal,
    split_bounds, split_char, pieces_of, str_chars, string_of, strs, to_lowercase_string,
    unicode_lower,
};
use crate::types::{DataItem, PicClause, PicType};

verus! {

/// One field in a REDEFINES target struct.
#[derive(Debug, Clone, PartialEq, Eq)]
pub struct RedefinesField {
    pub name: String,
    /// Byte offset within the parent buffer
    pub offset: usize,
    /// Byte length of this field
    pub length: usize,
    pub field_type: RedefinesFieldType,
}

#[derive(Debug, Clone, Copy, PartialEq, Eq, Structural)]
pub enum RedefinesFieldType {
    /// PIC X(N): alphanumeric, a String
    Alphanumeric,
    /// PIC 9(N): numeric integer, u64 / i64
    Numeric { signed: bool },
    /// PIC 9(N)V99: decimal
    Decimal { decimal_digits: u32 },
}

/// Complete description of a REDEFINES relationship.
#[derive(Debug, Clone)]
pub struct RedefinesSpec {
    /// The base variable being redefined (e.g., "WS-BUFFER")
    pub base_name: String,
    /// Total byte size of the base variable
    pub base_size: usize,
    /// The name of the redefining group (e.g., "WS-NAME")
    pub alias_name: String,
    /// Fields within the alias interpretation
    pub fields: Vec<RedefinesField>,
}

pub struct FieldModel {
    pub name: Seq<char>,
    pub offset: nat,
    pub length: nat,
    pub field_type: RedefinesFieldType,
}

pub struct RedefinesModel {
    pub base_name: Seq<char>,
    pub base_size: nat,
    pub alias_name: Seq<char>,
    pub fields: Seq<FieldModel>,
}

impl View for RedefinesField {
    type V = FieldModel;

    open spec fn view(&self) -> FieldModel {
        FieldModel {
            name: self.name@,
            offset: self.offset as nat,
            length: self.length as nat,
            field_type: self.field_type,
        }
    }
}

pub open spec fn fields_view(fs: Seq<RedefinesField>) -> Seq<FieldModel> {
    fs.map_values(|f: RedefinesField| f@)
}

impl View for RedefinesSpec {
    type V = RedefinesModel;

    open spec fn view(&self) -> RedefinesModel {
        RedefinesModel {
            base_name: self.base_name@,
            base_size: self.base_size as nat,
            alias_name: self.alias_name@,
            fields: fields_view(self.fields@),
        }
    }
}

// ---------------------------------------------------------------------------
// Names
// ---------------------------------------------------------------------------

/// One hyphen-separated part of a name: the upper-case mapping of its first character,
/// then the lower-case mapping of the rest.
pub open spec fn cap_part(p: Seq<char>) -> Seq<char> {
    if p.len() == 0 {
        Seq::empty()
    } else {
        char_upper(p[0]) + unicode_lower(p.drop_first())
    }
}

/// A COBOL hyphenated name as a Rust CamelCase type name.
pub open spec fn pascal_type(s: Seq<char>) -> Seq<char> {
    join(split_char(s, '-').map_values(|p: Seq<char>| cap_part(p)), Seq::empty())
}

fn cap_part_exec(v: &Vec<char>, a: usize, b: usize) -> (r: String)
    requires
        a <= b <= v@.len(),
    ensures
        r@ == cap_part(v@.subrange(a as int, b as int)),
{
    if a == b {
        return String::new();
    }
    let mut r = char_to_uppercase(v[a]);
    let rest = string_of(v, a + 1, b);
    let low = to_lowercase_string(rest.as_str());
    r.append(low.as_str());
    proof {
        assert(v@.subrange(a as int, b as int).drop_first() =~= v@.subrange(a + 1, b as int));
        assert(v@.subrange(a as int, b as int)[0] == v@[a as int]);
    }
    r
}

/// Convert a COBOL hyphenated name to a Rust CamelCase type name.
pub fn to_rust_type_name(cobol_name: &str) -> (res: String)
    ensures
        res@ == pascal_type(cobol_name@),
{
    let v = str_chars(cobol_name);
    let bs = split_bounds(&v, 0, v.len(), '-');
    let ghost ps = pieces_of(v@, bs@);
    let ghost caps = ps.map_values(|p: Seq<char>| cap_part(p));
    let mut parts: Vec<String> = Vec::new();
    let mut k: usize = 0;
    while k < bs.len()
        invariant
            k <= bs@.len(),
            ps == pieces_of(v@, bs@),
            caps == ps.map_values(|p: Seq<char>| cap_part(p)),
            forall|m: int| 0 <= m < bs@.len() ==> (#[trigger] bs@[m]).0 <= bs@[m].1 <= v@.len(),
            strs(parts@) =~= caps.take(k as int),
        decreases bs@.len() - k,
    {
        let (a, b) = bs[k];
        let c = cap_part_exec(&v, a, b);
        let ghost p0 = strs(parts@);
        parts.push(c);
        proof {
            assert(strs(parts@) =~= p0.push(c@));
            assert(caps.take(k + 1) =~= caps.take(k as int).push(caps[k as int]));
        }
        k = k + 1;
    }
    proof {
        assert(caps.take(bs@.len() as int) =~= caps);
        assert(v@.subrange(0, v@.len() as int) =~= v@);
        assert(ps == split_char(cobol_name@, '-'));
        assert(strs(parts@) == split_char(cobol_name@, '-').map_values(|p: Seq<char>| cap_part(p)));
        reveal_strlit("");
    }
    let res = join_exec(&parts, "");
    proof {
        assert(""@ =~= Seq::<char>::empty());
    }
    res
}

/// Convert a COBOL hyphenated name to a Rust snake_case field name.
pub fn to_rust_field_name(cobol_name: &str) -> (res: String)
    ensures
        res@ == rust_var(cobol_name@),
{
    to_rust_var(cobol_name)
}

/// Compute the byte size of a PIC clause.
pub fn pic_byte_size(pic: &PicClause) -> (r: usize)
    ensures
        r == pic.total_size,
{
    pic.total_size as usize
}

// ---------------------------------------------------------------------------
// Generated declarations
// ---------------------------------------------------------------------------

pub open spec fn rust_type_text(t: RedefinesFieldType) -> Seq<char> {
    match t {
        RedefinesFieldType::Alphanumeric => "String"@,
        RedefinesFieldType::Numeric { signed: true } => "i64"@,
        RedefinesFieldType::Numeric { signed: false } => "u64"@,
        RedefinesFieldType::Decimal { .. } => "rust_decimal::Decimal"@,
    }
}

pub open spec fn buffer_decl(m: RedefinesModel) -> Seq<char> {
    "#[derive(Debug, Clone)]\nstruct "@ + pascal_type(m.base_name) + "([u8; "@ + decimal(m.base_size)
        + "]);"@
}

pub open spec fn field_decls(fs: Seq<FieldModel>) -> Seq<Seq<char>> {
    fs.map_values(|f: FieldModel| "    pub "@ + rust_var(f.name) + ": "@ + rust_type_text(f.field_type) + ","@)
}

pub open spec fn alias_decl(m: RedefinesModel) -> Seq<char> {
    "#[derive(Debug, Clone)]\nstruct "@ + pascal_type(m.alias_name) + " {\n"@ + join(
        field_decls(m.fields),
        "\n"@,
    ) + "\n}"@
}

/// The initializer of one alias field from the buffer bytes `offset..offset+length`.
pub open spec fn field_init(f: FieldModel) -> Seq<char> {
    let range = decimal(f.offset) + ".."@ + decimal(f.offset + f.length);
    match f.field_type {
        RedefinesFieldType::Alphanumeric => "            "@ + rust_var(f.name)
            + ": String::from_utf8_lossy(&buf.0["@ + range + "]).trim().to_string(),"@,
        RedefinesFieldType::Numeric { .. } => "            "@ + rust_var(f.name)
            + ": String::from_utf8_lossy(&buf.0["@ + range + "]).trim().parse().unwrap_or(0),"@,
        RedefinesFieldType::Decimal { decimal_digits } => "            "@ + rust_var(f.name)
            + ": {\n                let raw = String::from_utf8_lossy(&buf.0["@ + range
            + "]);\n                let raw = raw.trim();\n                let (int_p, dec_p) = raw.split_at(raw.len().saturating_sub("@
            + decimal(decimal_digits as nat)
            + "));\n                rust_decimal::Decimal::from_str_exact(&format!(\"{}.{}\", int_p.trim_start_matches('0').replace(\"\", \"0\"), dec_p)).unwrap_or_default()\n            },"@,
    }
}

pub open spec fn from_impl_text(m: RedefinesModel) -> Seq<char> {
    let b = pascal_type(m.base_name);
    let a = pascal_type(m.alias_name);
    "impl From<"@ + b + "> for "@ + a + " {\n    fn from(buf: "@ + b + ") -> Self {\n        "@ + a
        + " {\n"@ + join(fs_inits(m.fields), "\n"@) + "\n        }\n    }\n}"@
}

/// The buffer struct is named after the base item and holds exactly `base_size` bytes; the
/// `From` impl converts that buffer type into the alias type.
pub proof fn lemma_buffer_and_conversion(m: RedefinesModel)
    ensures
        occurs_in(
            "#[derive(Debug, Clone)]\nstruct "@ + pascal_type(m.base_name) + "([u8; "@ + decimal(m.base_size)
                + "]);"@,
            buffer_decl(m),
        ),
        occurs_in(
            "impl From<"@ + pascal_type(m.base_name) + "> for "@ + pascal_type(m.alias_name),
            from_impl_text(m),
        ),
{
    let b = buffer_decl(m);
    assert(b =~= Seq::<char>::empty() + b + Seq::<char>::empty());
    lemma_occurs_between(Seq::empty(), b, Seq::empty());
    let h = "impl From<"@ + pascal_type(m.base_name) + "> for "@ + pascal_type(m.alias_name);
    let rest = " {\n    fn from(buf: "@ + pascal_type(m.base_name) + ") -> Self {\n        "@
        + pascal_type(m.alias_name) + " {\n"@ + join(fs_inits(m.fields), "\n"@)
        + "\n        }\n    }\n}"@;
    assert(from_impl_text(m) =~= Seq::<char>::empty() + h + rest);
    lemma_occurs_between(Seq::empty(), h, rest);
}

/// The alias struct declares every field, under its Rust name, with the Rust type of its
/// kind.
pub proof fn lemma_alias_declares_fields(m: RedefinesModel, k: int)
    requires
        0 <= k < m.fields.len(),
    ensures
        occurs_in(
            "    pub "@ + rust_var(m.fields[k].name) + ": "@ + rust_type_text(m.fields[k].field_type)
                + ","@,
            alias_decl(m),
        ),
{
    let ds = field_decls(m.fields);
    let (a, b) = lemma_join_split(ds, "\n"@, k);
    let f = m.fields[k];
    assert(ds[k] == "    pub "@ + rust_var(f.name) + ": "@ + rust_type_text(f.field_type) + ","@);
    let pre = "#[derive(Debug, Clone)]\nstruct "@ + pascal_type(m.alias_name) + " {\n"@;
    assert(alias_decl(m) =~= (pre + a) + ds[k] + (b + "\n}"@));
    lemma_occurs_between(pre + a, ds[k], b + "\n}"@);
}

/// What stands before the byte slice in the initializer of a field of type `t`.
pub open spec fn read_prefix(t: RedefinesFieldType) -> Seq<char> {
    match t {
        RedefinesFieldType::Decimal { .. } => ": {\n                let raw = String::from_utf8_lossy(&buf.0["@,
        _ => ": String::from_utf8_lossy(&buf.0["@,
    }
}

/// An initializer is its indentation, the read of its bytes, and what follows the read.
#[verifier::spinoff_prover]
proof fn lemma_field_init_split(f: FieldModel) -> (t: Seq<char>)
    ensures
        field_init(f) =~= "            "@ + (rust_var(f.name) + read_prefix(f.field_type) + decimal(
            f.offset,
        ) + ".."@ + decimal(f.offset + f.length) + "]"@) + t,
{
    let range = decimal(f.offset) + ".."@ + decimal(f.offset + f.length);
    match f.field_type {
        RedefinesFieldType::Alphanumeric => {
            reveal_strlit("]");
            reveal_strlit("]).trim().to_string(),");
            reveal_strlit(").trim().to_string(),");
            assert("]).trim().to_string(),"@ =~= "]"@ + ").trim().to_string(),"@);
            ").trim().to_string(),"@
        },
        RedefinesFieldType::Numeric { .. } => {
            reveal_strlit("]");
            reveal_strlit("]).trim().parse().unwrap_or(0),");
            reveal_strlit(").trim().parse().unwrap_or(0),");
            assert("]).trim().parse().unwrap_or(0),"@ =~= "]"@ + ").trim().parse().unwrap_or(0),"@);
            ").trim().parse().unwrap_or(0),"@
        },
        RedefinesFieldType::Decimal { decimal_digits } => {
            let l = "]);\n                let raw = raw.trim();\n                let (int_p, dec_p) = raw.split_at(raw.len().saturating_sub("@;
            reveal_strlit("]");
            reveal_strlit("]);\n                let raw = raw.trim();\n                let (int_p, dec_p) = raw.split_at(raw.len().saturating_sub(");
            assert(l =~= "]"@ + l.skip(1));
            l.skip(1) + decimal(decimal_digits as nat)
                + "));\n                rust_decimal::Decimal::from_str_exact(&format!(\"{}.{}\", int_p.trim_start_matches('0').replace(\"\", \"0\"), dec_p)).unwrap_or_default()\n            },"@
        },
    }
}

/// In the generated `From` impl every alias field, of any type, is initialized from its
/// own bytes: its name is followed by a read of `buf.0[offset..offset + length]`.
#[verifier::spinoff_prover]
pub proof fn lemma_fields_read_own_bytes(m: RedefinesModel, k: int)
    requires
        0 <= k < m.fields.len(),
    ensures
        occurs_in(
            rust_var(m.fields[k].name) + read_prefix(m.fields[k].field_type) + decimal(
                m.fields[k].offset,
            ) + ".."@ + decimal(m.fields[k].offset + m.fields[k].length) + "]"@,
            from_impl_text(m),
        ),
{
    let f = m.fields[k];
    let q = rust_var(f.name) + read_prefix(f.field_type) + decimal(f.offset) + ".."@ + decimal(
        f.offset + f.length,
    ) + "]"@;
    let inits = fs_inits(m.fields);
    let (a, b) = lemma_join_split(inits, "\n"@, k);
    assert(inits[k] == field_init(f));
    let t = lemma_field_init_split(f);
    let hb = pascal_type(m.base_name);
    let ha = pascal_type(m.alias_name);
    let head = "impl From<"@ + hb + "> for "@ + ha + " {\n    fn from(buf: "@ + hb + ") -> Self {\n        "@
        + ha + " {\n"@;
    let foot = "\n        }\n    }\n}"@;
    assert(from_impl_text(m) == head + join(inits, "\n"@) + foot);
    assert(join(inits, "\n"@) == a + ("            "@ + q + t) + b);
    assert(from_impl_text(m) =~= (head + a + "            "@) + q + (t + b + foot));
    lemma_occurs_between(head + a + "            "@, q, t + b + foot);
}

pub open spec fn fs_inits(fs: Seq<FieldModel>) -> Seq<Seq<char>> {
    fs.map_values(|f: FieldModel| field_init(f))
}

/// Every field's end offset fits in a `usize`.
pub open spec fn ends_fit(m: RedefinesModel) -> bool {
    forall|k: int| 0 <= k < m.fields.len() ==> #[trigger] m.fields[k].offset + m.fields[k].length
        <= usize::MAX
}

fn rust_type_text_exec(t: RedefinesFieldType) -> (r: &'static str)
    ensures
        r@ == rust_type_text(t),
{
    match t {
        RedefinesFieldType::Alphanumeric => "String",
        RedefinesFieldType::Numeric { signed: true } => "i64",
        RedefinesFieldType::Numeric { signed: false } => "u64",
        RedefinesFieldType::Decimal { .. } => "rust_decimal::Decimal",
    }
}

fn field_init_exec(f: &RedefinesField) -> (r: String)
    requires
        f.offset + f.length <= usize::MAX,
    ensures
        r@ == field_init(f@),
{
    let name = to_rust_var(f.name.as_str());
    let mut range = String::new();
    push_decimal(&mut range, f.offset);
    range.append("..");
    push_decimal(&mut range, f.offset + f.length);
    let mut r = String::new();
    r.append("            ");
    r.append(name.as_str());
    match f.field_type {
        RedefinesFieldType::Alphanumeric => {
            r.append(": String::from_utf8_lossy(&buf.0[");
            r.append(range.as_str());
            r.append("]).trim().to_string(),");
        },
        RedefinesFieldType::Numeric { .. } => {
            r.append(": String::from_utf8_lossy(&buf.0[");
            r.append(range.as_str());
            r.append("]).trim().parse().unwrap_or(0),");
        },
        RedefinesFieldType::Decimal { decimal_digits } => {
            r.append(": {\n                let raw = String::from_utf8_lossy(&buf.0[");
            r.append(range.as_str());
            r.append("]);\n                let raw = raw.trim();\n                let (int_p, dec_p) = raw.split_at(raw.len().saturating_sub(");
            push_decimal(&mut r, decimal_digits as usize);
            r.append("));\n                rust_decimal::Decimal::from_str_exact(&format!(\"{}.{}\", int_p.trim_start_matches('0').replace(\"\", \"0\"), dec_p)).unwrap_or_default()\n            },");
        },
    }
    r
}

impl RedefinesSpec {
    /// The Rust buffer struct declaration, e.g. `struct WsBuffer([u8; 10]);`.
    pub fn buffer_struct_decl(&self) -> (r: String)
        ensures
            r@ == buffer_decl(self@),
    {
        let name = to_rust_type_name(self.base_name.as_str());
        let mut r = String::new();
        r.append("#[derive(Debug, Clone)]\nstruct ");
        r.append(name.as_str());
        r.append("([u8; ");
        push_decimal(&mut r, self.base_size);
        r.append("]);");
        r
    }

    /// The Rust alias struct declaration.
    pub fn alias_struct_decl(&self) -> (r: String)
        ensures
            r@ == alias_decl(self@),
    {
        let ghost fv = fields_view(self.fields@);
        let mut lines: Vec<String> = Vec::new();
        let mut i: usize = 0;
        while i < self.fields.len()
            invariant
                i <= self.fields@.len(),
                fv == fields_view(self.fields@),
                strs(lines@) =~= field_decls(fv).take(i as int),
            decreases self.fields@.len() - i,
        {
            let f = &self.fields[i];
            let mut l = String::new();
            l.append("    pub ");
            let n = to_rust_var(f.name.as_str());
            l.append(n.as_str());
            l.append(": ");
            l.append(rust_type_text_exec(f.field_type));
            l.append(",");
            let ghost l0 = strs(lines@);
            lines.push(l);
            proof {
                assert(strs(lines@) =~= l0.push(l@));
                assert(field_decls(fv).take(i + 1) =~= field_decls(fv).take(i as int).push(l@));
            }
            i = i + 1;
        }
        proof {
            assert(field_decls(fv).take(self.fields@.len() as int) =~= field_decls(fv));
        }
        let name = to_rust_type_name(self.alias_name.as_str());
        let body = join_exec(&lines, "\n");
        let mut r = String::new();
        r.append("#[derive(Debug, Clone)]\nstruct ");
        r.append(name.as_str());
        r.append(" {\n");
        r.append(body.as_str());
        r.append("\n}");
        r
    }

    /// The `From<BaseStruct> for AliasStruct` impl.
    pub fn from_impl(&self) -> (r: String)
        requires
            ends_fit(self@),
        ensures
            r@ == from_impl_text(self@),
    {
        let ghost fv = fields_view(self.fields@);
        let mut inits: Vec<String> = Vec::new();
        let mut i: usize = 0;
        while i < self.fields.len()
            invariant
                i <= self.fields@.len(),
                fv == fields_view(self.fields@),
                ends_fit(self@),
                strs(inits@) =~= fs_inits(fv).take(i as int),
            decreases self.fields@.len() - i,
        {
            proof {
                assert(fv[i as int].offset + fv[i as int].length <= usize::MAX);
            }
            let l = field_init_exec(&self.fields[i]);
            let ghost l0 = strs(inits@);
            inits.push(l);
            proof {
                assert(strs(inits@) =~= l0.push(l@));
                assert(fs_inits(fv).take(i + 1) =~= fs_inits(fv).take(i as int).push(l@));
            }
            i = i + 1;
        }
        proof {
            assert(fs_inits(fv).take(self.fields@.len() as int) =~= fs_inits(fv));
        }
        let b = to_rust_type_name(self.base_name.as_str());
        let a = to_rust_type_name(self.alias_name.as_str());
        let body = join_exec(&inits, "\n");
        let mut r = String::new();
        r.append("impl From<");
        r.append(b.as_str());
        r.append("> for ");
        r.append(a.as_str());
        r.append(" {\n    fn from(buf: ");
        r.append(b.as_str());
        r.append(") -> Self {\n        ");
        r.append(a.as_str());
        r.append(" {\n");
        r.append(body.as_str());
        r.append("\n        }\n    }\n}");
        r
    }

    /// All three pieces: buffer struct, alias struct, From impl.
    pub fn generate_all(&self) -> (r: String)
        requires
            ends_fit(self@),
        ensures
            r@ == buffer_decl(self@) + "\n\n"@ + alias_decl(self@) + "\n\n"@ + from_impl_text(self@),
    {
        let mut r = self.buffer_struct_decl();
        r.append("\n\n");
        let a = self.alias_struct_decl();
        r.append(a.as_str());
        r.append("\n\n");
        let f = self.from_impl();
        r.append(f.as_str());
        r
    }
}

} // verus!

verus! {

// ---------------------------------------------------------------------------
// Extraction from data items
// ---------------------------------------------------------------------------

/// The field type a PIC clause gives.
pub open spec fn field_type_of(p: PicClause) -> RedefinesFieldType {
    match p.pic_type {
        PicType::Alphanumeric | PicType::Alphabetic => RedefinesFieldType::Alphanumeric,
        PicType::Numeric => if p.decimal_digits > 0 {
            RedefinesFieldType::Decimal { decimal_digits: p.decimal_digits }
        } else {
            RedefinesFieldType::Numeric { signed: p.signed }
        },
    }
}

/// The fields of the children that have a picture, laid out from offset `off` on.
pub open spec fn fields_from(cs: Seq<DataItem>, off: nat) -> Seq<FieldModel>
    decreases cs.len(),
{
    if cs.len() == 0 {
        Seq::empty()
    } else {
        match cs[0].picture {
            None => fields_from(cs.drop_first(), off),
            Some(p) => seq![
                FieldModel {
                    name: cs[0].name@,
                    offset: off,
                    length: p.total_size as nat,
                    field_type: field_type_of(p),
                },
            ] + fields_from(cs.drop_first(), (off + p.total_size) as nat),
        }
    }
}

/// Total size of the children that have a picture.
pub open spec fn pic_total(cs: Seq<DataItem>) -> nat
    decreases cs.len(),
{
    if cs.len() == 0 {
        0
    } else {
        (match cs[0].picture {
            None => 0,
            Some(p) => p.total_size as nat,
        }) + pic_total(cs.drop_first())
    }
}

/// Size of the first item named `base`: its picture's size, or 0 without a picture or item.
pub open spec fn base_size_of(items: Seq<DataItem>, base: Seq<char>) -> nat
    decreases items.len(),
{
    if items.len() == 0 {
        0
    } else if items[0].name@ == base {
        match items[0].picture {
            Some(p) => p.total_size as nat,
            None => 0,
        }
    } else {
        base_size_of(items.drop_first(), base)
    }
}

/// The REDEFINES relationship of `it`, which redefines `base`, among `items`.
pub open spec fn redefines_model(items: Seq<DataItem>, it: DataItem, base: Seq<char>) -> RedefinesModel {
    RedefinesModel {
        base_name: base,
        base_size: base_size_of(items, base),
        alias_name: it.name@,
        fields: fields_from(it.children@, 0),
    }
}

/// The relationships of `items[0..k]`, in order.
pub open spec fn redefines_upto(items: Seq<DataItem>, k: int) -> Seq<RedefinesModel>
    decreases k,
{
    if k <= 0 || k > items.len() {
        Seq::empty()
    } else {
        redefines_upto(items, k - 1) + match items[k - 1].redefines {
            Some(b) => seq![redefines_model(items, items[k - 1], b@)],
            None => Seq::empty(),
        }
    }
}

pub open spec fn specs_view(v: Seq<RedefinesSpec>) -> Seq<RedefinesModel> {
    v.map_values(|s: RedefinesSpec| s@)
}

/// The running offsets of every redefining item fit in a `usize`.
pub open spec fn offsets_fit(items: Seq<DataItem>) -> bool {
    forall|k: int| 0 <= k < items.len() && (#[trigger] items[k]).redefines is Some ==> pic_total(
        items[k].children@,
    ) <= usize::MAX
}

fn base_size_exec(items: &[DataItem], base: &String) -> (r: usize)
    ensures
        r == base_size_of(items@, base@),
{
    let mut i: usize = 0;
    proof {
        assert(items@.skip(0) =~= items@);
    }
    while i < items.len()
        invariant
            i <= items@.len(),
            base_size_of(items@, base@) == base_size_of(items@.skip(i as int), base@),
        decreases items@.len() - i,
    {
        proof {
            assert(items@.skip(i as int)[0] == items@[i as int]);
            assert(items@.skip(i as int).drop_first() =~= items@.skip(i + 1));
        }
        if items[i].name == *base {
            return match &items[i].picture {
                Some(p) => pic_byte_size(p),
                None => 0,
            };
        }
        i = i + 1;
    }
    0
}

fn field_type_exec(p: &PicClause) -> (r: RedefinesFieldType)
    ensures
        r == field_type_of(*p),
{
    match p.pic_type {
        PicType::Alphanumeric | PicType::Alphabetic => RedefinesFieldType::Alphanumeric,
        PicType::Numeric => if p.decimal_digits > 0 {
            RedefinesFieldType::Decimal { decimal_digits: p.decimal_digits }
        } else {
            RedefinesFieldType::Numeric { signed: p.signed }
        },
    }
}

pub proof fn lemma_pic_total_unfold(cs: Seq<DataItem>, i: int)
    requires
        0 <= i < cs.len(),
    ensures
        pic_total(cs.skip(i)) == (match cs[i].picture {
            None => 0,
            Some(p) => p.total_size as nat,
        }) + pic_total(cs.skip(i + 1)),
{
    assert(cs.skip(i)[0] == cs[i]);
    assert(cs.skip(i).drop_first() =~= cs.skip(i + 1));
}

fn fields_exec(cs: &Vec<DataItem>) -> (r: Vec<RedefinesField>)
    requires
        pic_total(cs@) <= usize::MAX,
    ensures
        fields_view(r@) == fields_from(cs@, 0),
{
    let mut r: Vec<RedefinesField> = Vec::new();
    let mut offset: usize = 0;
    let mut i: usize = 0;
    proof {
        assert(cs@.skip(0) =~= cs@);
    }
    while i < cs.len()
        invariant
            i <= cs@.len(),
            offset + pic_total(cs@.skip(i as int)) == pic_total(cs@),
            pic_total(cs@) <= usize::MAX,
            fields_view(r@) + fields_from(cs@.skip(i as int), offset as nat) == fields_from(cs@, 0),
        decreases cs@.len() - i,
    {
        let ghost s = cs@.skip(i as int);
        proof {
            assert(s[0] == cs@[i as int]);
            assert(s.drop_first() =~= cs@.skip(i + 1));
            lemma_pic_total_unfold(cs@, i as int);
        }
        match &cs[i].picture {
            Some(p) => {
                let length = pic_byte_size(p);
                let f = RedefinesField {
                    name: cs[i].name.clone(),
                    offset,
                    length,
                    field_type: field_type_exec(p),
                };
                let ghost r0 = fields_view(r@);
                r.push(f);
                proof {
                    assert(fields_view(r@) =~= r0.push(f@));
                    assert(fields_view(r@) + fields_from(cs@.skip(i + 1), (offset + length) as nat) =~= r0 + fields_from(s, offset as nat));
                }
                offset = offset + length;
            },
            None => {},
        }
        i = i + 1;
    }
    proof {
        assert(cs@.skip(cs@.len() as int) =~= Seq::<DataItem>::empty());
        assert(fields_view(r@) + Seq::<FieldModel>::empty() =~= fields_view(r@));
    }
    r
}

/// Extract REDEFINES relationships from a list of DataItems, one `RedefinesSpec` per
/// REDEFINES clause, in order.
pub fn extract_redefines(items: &[DataItem]) -> (specs: Vec<RedefinesSpec>)
    requires
        offsets_fit(items@),
    ensures
        specs_view(specs@) == redefines_upto(items@, items@.len() as int),
{
    let mut specs: Vec<RedefinesSpec> = Vec::new();
    let mut i: usize = 0;
    while i < items.len()
        invariant
            i <= items@.len(),
            offsets_fit(items@),
            specs_view(specs@) == redefines_upto(items@, i as int),
        decreases items@.len() - i,
    {
        let item = &items[i];
        match &item.redefines {
            Some(base_name) => {
                proof {
                    assert(items@[i as int].redefines is Some);
                }
                let base_size = base_size_exec(items, base_name);
                let fields = fields_exec(&item.children);
                let s = RedefinesSpec {
                    base_name: base_name.clone(),
                    base_size,
                    alias_name: item.name.clone(),
                    fields,
                };
                let ghost s0 = specs_view(specs@);
                specs.push(s);
                proof {
                    assert(specs_view(specs@) =~= s0.push(s@));
                    assert(redefines_upto(items@, i + 1) =~= redefines_upto(items@, i as int).push(s@));
                }
            },
            None => {
                proof {
                    assert(redefines_upto(items@, i + 1) =~= redefines_upto(items@, i as int));
                }
            },
        }
        i = i + 1;
    }
    specs
}

// ---------------------------------------------------------------------------
// Laws
// ---------------------------------------------------------------------------

/// The fields of a REDEFINES alias tile the buffer from `off`: the first starts at `off`,
/// each next one starts where the one before ends, and together they end at `off` plus the
/// sizes of the pictured children.
pub proof fn lemma_fields_contiguous(cs: Seq<DataItem>, off: nat)
    ensures
        fields_from(cs, off).len() > 0 ==> fields_from(cs, off)[0].offset == off,
        forall|k: int|
            0 < k < fields_from(cs, off).len() ==> #[trigger] fields_from(cs, off)[k].offset
                == fields_from(cs, off)[k - 1].offset + fields_from(cs, off)[k - 1].length,
        fields_from(cs, off).len() > 0 ==> fields_from(cs, off).last().offset + fields_from(
            cs,
            off,
        ).last().length == off + pic_total(cs),
        fields_from(cs, off).len() == 0 ==> pic_total(cs) == 0,
    decreases cs.len(),
{
    if cs.len() > 0 {
        match cs[0].picture {
            None => {
                lemma_fields_contiguous(cs.drop_first(), off);
            },
            Some(p) => {
                let n = (off + p.total_size) as nat;
                lemma_fields_contiguous(cs.drop_first(), n);
                let rest = fields_from(cs.drop_first(), n);
                let all = fields_from(cs, off);
                assert(all =~= seq![all[0]] + rest);
                assert forall|k: int| 0 < k < all.len() implies #[trigger] all[k].offset
                    == all[k - 1].offset + all[k - 1].length by {
                    assert(all[k] == rest[k - 1]);
                    if k > 1 {
                        assert(all[k - 1] == rest[k - 2]);
                        assert(rest[k - 1].offset == rest[k - 2].offset + rest[k - 2].length);
                    } else {
                        assert(rest[0].offset == n);
                    }
                }
            },
        }
    }
}

/// Every item with a REDEFINES clause gives exactly one relationship, named after it.
pub proof fn lemma_one_spec_per_clause(items: Seq<DataItem>, k: int)
    requires
        0 <= k <= items.len(),
    ensures
        redefines_upto(items, k).len() == count_redefines(items, k),
    decreases k,
{
    if k > 0 {
        lemma_one_spec_per_clause(items, k - 1);
    }
}

/// Number of items in `items[0..k]` with a REDEFINES clause.
pub open spec fn count_redefines(items: Seq<DataItem>, k: int) -> nat
    decreases k,
{
    if k <= 0 || k > items.len() {
        0
    } else {
        count_redefines(items, k - 1) + if items[k - 1].redefines is Some {
            1nat
        } else {
            0
        }
    }
}

} // verus!
