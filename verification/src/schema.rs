//! Content collection schemas: the metadata fields that the pages of a
//! section must or may have, and the Typst checks that a page wrapper runs
//! on its metadata before rendering.
use vstd::prelude::*;

use crate::feed::{text_less, text_lt};
use crate::listing::lemma_text_order3;
use crate::model::Page;
use crate::text::{
    chars_of, eq_str, lemma_split_char_nonempty, lines, lines_vec, split_char, split_char_vec, push_char, push_chars, string_of, strip_start_char,
    trim_start_char_vec, vec_eq, views,
};
use crate::url::{decimal, usize_to_decimal};
use crate::util::{typst_string, typst_string_of};

verus! {

broadcast use vstd::string::group_string_axioms;

/// The kind of value a metadata field holds.
pub enum MetadataFieldKind {
    /// A Typst type by name (`str`, `int`, `date`, `url`, `number`, ...).
    Builtin(String),
    /// An array whose items follow the inner schema.
    Array(Box<MetadataFieldSchema>),
    /// A dictionary with named fields; a field named `*` allows any keys.
    Object(SchemaFields),
    /// A value that follows one of the schemas.
    Union(Vec<MetadataFieldSchema>),
    /// Any value.
    Any,
}

/// The schema of one metadata field.
pub struct MetadataFieldSchema {
    /// Whether the field may be left out.
    pub optional: bool,
    /// What the field holds.
    pub kind: MetadataFieldKind,
}

/// Field schemas by name, kept in name order with no name twice.
pub struct SchemaFields {
    entries: Vec<(String, MetadataFieldSchema)>,
}

/// Whether the names of `s` increase strictly.
pub open spec fn names_increase(s: Seq<(String, MetadataFieldSchema)>) -> bool {
    forall|i: int, j: int|
        #![trigger s[i], s[j]]
        0 <= i < j < s.len() ==> text_lt(s[i].0@, s[j].0@)
}

/// `s` with `name` set to `schema`: the entry for `name` replaced, or a new
/// entry put before the first larger name.
pub open spec fn insert_field(
    s: Seq<(String, MetadataFieldSchema)>,
    name: String,
    schema: MetadataFieldSchema,
) -> Seq<(String, MetadataFieldSchema)>
    decreases s.len(),
{
    if s.len() == 0 {
        seq![(name, schema)]
    } else if s[0].0@ == name@ {
        seq![(name, schema)] + s.drop_first()
    } else if text_lt(name@, s[0].0@) {
        seq![(name, schema)] + s
    } else {
        seq![s[0]] + insert_field(s.drop_first(), name, schema)
    }
}

/// Inserting past a prefix of smaller names keeps the prefix.
proof fn lemma_insert_field_skip(
    s: Seq<(String, MetadataFieldSchema)>,
    i: int,
    name: String,
    schema: MetadataFieldSchema,
)
    requires
        0 <= i <= s.len(),
        forall|j: int| 0 <= j < i ==> #[trigger] text_lt(s[j].0@, name@),
    ensures
        insert_field(s, name, schema) == s.take(i) + insert_field(s.skip(i), name, schema),
    decreases i,
{
    if i == 0 {
        assert(s.skip(0) =~= s);
        assert(s.take(0) + insert_field(s, name, schema) =~= insert_field(s, name, schema));
    } else {
        assert(text_lt(s[0].0@, name@));
        lemma_text_order3(s[0].0@, name@, name@);
        assert(s[0].0@ != name@);
        assert(!text_lt(name@, s[0].0@));
        let t = s.drop_first();
        assert forall|j: int| 0 <= j < i - 1 implies #[trigger] text_lt(t[j].0@, name@) by {
            assert(t[j] == s[j + 1]);
        }
        lemma_insert_field_skip(t, i - 1, name, schema);
        assert(t.take(i - 1) =~= s.take(i).drop_first());
        assert(t.skip(i - 1) =~= s.skip(i));
        assert(seq![s[0]] + (t.take(i - 1) + insert_field(t.skip(i - 1), name, schema)) =~= s.take(
            i,
        ) + insert_field(s.skip(i), name, schema));
    }
}

/// The Typst condition that `expr` has the type named `name`.
pub open spec fn type_condition(expr: Seq<char>, name: Seq<char>) -> Seq<char> {
    if name == "date"@ || name == "datetime"@ {
        "type("@ + expr + ") == datetime or type("@ + expr + ") == str"@
    } else if name == "url"@ {
        "type("@ + expr + ") == str"@
    } else if name == "number"@ {
        "type("@ + expr + ") == int or type("@ + expr + ") == float or type("@ + expr
            + ") == decimal"@
    } else if name == "none"@ {
        expr + " == none"@
    } else if name == "auto"@ {
        expr + " == auto"@
    } else {
        "type("@ + expr + ") == "@ + name
    }
}

/// The Typst condition that `expr` matches `s`: also `none` when the field
/// is optional.
pub open spec fn match_condition(expr: Seq<char>, s: MetadataFieldSchema) -> Seq<char>
    decreases s, 1int,
{
    if s.optional {
        expr + " == none or ("@ + match_inner(expr, s) + ")"@
    } else {
        match_inner(expr, s)
    }
}

/// The Typst condition that `expr` has the kind of `s`; arrays and
/// dictionaries are checked by type alone.
pub open spec fn match_inner(expr: Seq<char>, s: MetadataFieldSchema) -> Seq<char>
    decreases s, 0int,
{
    match s.kind {
        MetadataFieldKind::Any => "true"@,
        MetadataFieldKind::Builtin(n) => type_condition(expr, n@),
        MetadataFieldKind::Array(_) => "type("@ + expr + ") == array"@,
        MetadataFieldKind::Object(_) => "type("@ + expr + ") == dictionary"@,
        MetadataFieldKind::Union(opts) => union_conditions(expr, opts@),
    }
}

/// The conditions of the options, joined by ` or `.
pub open spec fn union_conditions(expr: Seq<char>, opts: Seq<MetadataFieldSchema>) -> Seq<char>
    decreases opts, 2int,
{
    if opts.len() == 0 {
        Seq::<char>::empty()
    } else if opts.len() == 1 {
        match_condition(expr, opts[0])
    } else {
        union_conditions(expr, opts.drop_last()) + " or "@ + match_condition(expr, opts.last())
    }
}

/// The Typst condition that `expr` has the type named `name`.
pub fn typst_type_condition(expr: &str, name: &str) -> (r: String)
    ensures
        r@ == type_condition(expr@, name@),
{
    let n = chars_of(name);
    let mut s = String::from_str("type(");
    if eq_str(&n, "date") || eq_str(&n, "datetime") {
        s.append(expr);
        s.append(") == datetime or type(");
        s.append(expr);
        s.append(") == str");
    } else if eq_str(&n, "url") {
        s.append(expr);
        s.append(") == str");
    } else if eq_str(&n, "number") {
        s.append(expr);
        s.append(") == int or type(");
        s.append(expr);
        s.append(") == float or type(");
        s.append(expr);
        s.append(") == decimal");
    } else if eq_str(&n, "none") {
        s = String::from_str(expr);
        s.append(" == none");
    } else if eq_str(&n, "auto") {
        s = String::from_str(expr);
        s.append(" == auto");
    } else {
        s.append(expr);
        s.append(") == ");
        s.append(name);
    }
    s
}

/// The Typst condition that `expr` matches `schema`.
pub fn metadata_schema_match_condition(expr: &str, schema: &MetadataFieldSchema) -> (r: String)
    ensures
        r@ == match_condition(expr@, *schema),
    decreases *schema, 1int,
{
    if schema.optional {
        let mut s = String::from_str(expr);
        s.append(" == none or (");
        s.append(metadata_schema_match_condition_inner(expr, schema).as_str());
        s.append(")");
        s
    } else {
        metadata_schema_match_condition_inner(expr, schema)
    }
}

/// The Typst condition that `expr` has the kind of `schema`.
fn metadata_schema_match_condition_inner(expr: &str, schema: &MetadataFieldSchema) -> (r: String)
    ensures
        r@ == match_inner(expr@, *schema),
    decreases *schema, 0int,
{
    match &schema.kind {
        MetadataFieldKind::Any => String::from_str("true"),
        MetadataFieldKind::Builtin(n) => typst_type_condition(expr, n.as_str()),
        MetadataFieldKind::Array(_) => {
            let mut s = String::from_str("type(");
            s.append(expr);
            s.append(") == array");
            s
        },
        MetadataFieldKind::Object(_) => {
            let mut s = String::from_str("type(");
            s.append(expr);
            s.append(") == dictionary");
            s
        },
        MetadataFieldKind::Union(opts) => {
            proof {
                assert(decreases_to!(*schema => schema.kind));
                assert(decreases_to!(schema.kind => schema.kind->Union_0));
            }
            union_conditions_text(expr, opts)
        },
    }
}

/// The conditions of the options, joined by ` or `.
fn union_conditions_text(expr: &str, opts: &Vec<MetadataFieldSchema>) -> (r: String)
    ensures
        r@ == union_conditions(expr@, opts@),
    decreases *opts, 2int,
{
    let ghost ov = opts@;
    let mut s = String::new();
    let mut i: usize = 0;
    while i < opts.len()
        invariant
            i <= opts.len(),
            ov == opts@,
            s@ == union_conditions(expr@, ov.take(i as int)),
        decreases opts.len() - i,
    {
        assert(ov.take(i + 1).drop_last() =~= ov.take(i as int));
        assert(ov.take(i + 1).last() == ov[i as int]);
        proof {
            assert(decreases_to!(*opts => opts@));
            assert(decreases_to!(opts@ => opts@[i as int]));
        }
        let c = metadata_schema_match_condition(expr, &opts[i]);
        if i > 0 {
            s.append(" or ");
        }
        s.append(c.as_str());
        proof {
            if i == 0 {
                assert(ov.take(1) =~= seq![ov[0]]);
            }
        }
        i += 1;
    }
    assert(ov.take(opts.len() as int) =~= ov);
    s
}

/// Whether the fields allow any keys: one of them is named `*`.
pub open spec fn has_wildcard(fs: Seq<(String, MetadataFieldSchema)>) -> bool {
    exists|i: int| 0 <= i < fs.len() && #[trigger] fs[i].0@ == "*"@
}

/// The lines `ls`, each after `indent` and without its leading `#`s, and
/// each ended by a newline: code-mode lines for use inside a block.
pub open spec fn indent_lines(ls: Seq<Seq<char>>, indent: Seq<char>) -> Seq<char>
    decreases ls.len(),
{
    if ls.len() == 0 {
        Seq::<char>::empty()
    } else {
        indent_lines(ls.drop_last(), indent) + indent + strip_start_char(ls.last(), '#')
            + seq!['\n']
    }
}

/// The Typst line that stops the build with the message `m` when `cond`
/// holds of a field that is present.
pub open spec fn panic_line(cond: Seq<char>, m: Seq<char>) -> Seq<char> {
    cond + " { panic("@ + typst_string_of(m) + ") }\n"@
}

/// The message for a field of the wrong kind.
pub open spec fn must_be(path: Seq<char>, label: Seq<char>, what: Seq<char>) -> Seq<char> {
    path + ": metadata field `"@ + label + "` must be "@ + what
}

/// The Typst lines that check the value `expr` of the field `label`
/// against `s`, naming `path` in their messages; an absent (`none`) value
/// passes.
pub closed spec fn validation_typ(
    expr: Seq<char>,
    label: Seq<char>,
    s: MetadataFieldSchema,
    path: Seq<char>,
) -> Seq<char>
    decreases s, 1int,
{
    match s.kind {
        MetadataFieldKind::Any => Seq::<char>::empty(),
        MetadataFieldKind::Builtin(n) => panic_line(
            "#if "@ + expr + " != none and not ("@ + type_condition(expr, n@) + ")"@,
            must_be(path, label, n@),
        ),
        MetadataFieldKind::Array(inner) => panic_line(
            "#if "@ + expr + " != none and type("@ + expr + ") != array"@,
            must_be(path, label, "array"@),
        ) + "#if "@ + expr + " != none and type("@ + expr + ") == array {\n  for __typage_item in "@
            + expr + " {\n"@ + validation_code(
            "__typage_item"@,
            label,
            *inner,
            path + "[]"@,
            "    "@,
        ) + "  }\n}\n"@,
        MetadataFieldKind::Object(fields) => {
            let check = panic_line(
                "#if "@ + expr + " != none and type("@ + expr + ") != dictionary"@,
                must_be(path, label, "dictionary"@),
            );
            if has_wildcard(fields.entries@) {
                check
            } else {
                check + "#if "@ + expr + " != none and type("@ + expr + ") == dictionary {\n"@
                    + fields_code(expr, label, fields.entries@, path) + "}\n"@
            }
        },
        MetadataFieldKind::Union(opts) => panic_line(
            "#if "@ + expr + " != none and not ("@ + union_conditions(expr, opts@) + ")"@,
            path + ": metadata field `"@ + label + "` does not match union schema"@,
        ),
    }
}

/// What `validation_typ` is, kind by kind, in terms of the fields a
/// dictionary schema lists (`SchemaFields::entries`): nothing for any
/// value; a type check for a built-in type; an array check and a check of
/// each item; a dictionary check, then (unless a `*` field allows any key)
/// a check of each listed field; a check against the union's conditions.
pub proof fn lemma_validation_typ(
    expr: Seq<char>,
    label: Seq<char>,
    s: MetadataFieldSchema,
    path: Seq<char>,
)
    ensures
        validation_typ(expr, label, s, path) == match s.kind {
            MetadataFieldKind::Any => Seq::<char>::empty(),
            MetadataFieldKind::Builtin(n) => panic_line(
                "#if "@ + expr + " != none and not ("@ + type_condition(expr, n@) + ")"@,
                must_be(path, label, n@),
            ),
            MetadataFieldKind::Array(inner) => panic_line(
                "#if "@ + expr + " != none and type("@ + expr + ") != array"@,
                must_be(path, label, "array"@),
            ) + "#if "@ + expr + " != none and type("@ + expr
                + ") == array {\n  for __typage_item in "@ + expr + " {\n"@ + validation_code(
                "__typage_item"@,
                label,
                *inner,
                path + "[]"@,
                "    "@,
            ) + "  }\n}\n"@,
            MetadataFieldKind::Object(fields) => {
                let check = panic_line(
                    "#if "@ + expr + " != none and type("@ + expr + ") != dictionary"@,
                    must_be(path, label, "dictionary"@),
                );
                if has_wildcard(fields.entries()) {
                    check
                } else {
                    check + "#if "@ + expr + " != none and type("@ + expr + ") == dictionary {\n"@
                        + fields_code(expr, label, fields.entries(), path) + "}\n"@
                }
            },
            MetadataFieldKind::Union(opts) => panic_line(
                "#if "@ + expr + " != none and not ("@ + union_conditions(expr, opts@) + ")"@,
                path + ": metadata field `"@ + label + "` does not match union schema"@,
            ),
        },
{
}

/// The checks of `validation_typ` as code-mode lines after `indent`.
pub open spec fn validation_code(
    expr: Seq<char>,
    label: Seq<char>,
    s: MetadataFieldSchema,
    path: Seq<char>,
    indent: Seq<char>,
) -> Seq<char>
    decreases s, 2int,
{
    indent_lines(lines(validation_typ(expr, label, s, path)), indent)
}

/// The name of the variable that holds field number `idx` of a dictionary.
pub open spec fn obj_var(idx: nat) -> Seq<char> {
    "__typage_obj_"@ + decimal(idx)
}

/// The checks of the fields of a dictionary `expr`, field by field: each
/// field's value bound to a variable, its presence checked unless it is
/// optional, and its value checked against its schema.
pub open spec fn fields_code(
    expr: Seq<char>,
    label: Seq<char>,
    fs: Seq<(String, MetadataFieldSchema)>,
    path: Seq<char>,
) -> Seq<char>
    decreases fs, 3int,
{
    if fs.len() == 0 {
        Seq::<char>::empty()
    } else {
        let idx = (fs.len() - 1) as nat;
        let key = fs.last().0@;
        let inner = fs.last().1;
        let var = obj_var(idx);
        fields_code(expr, label, fs.drop_last(), path) + "  let "@ + var + " = "@ + expr + ".at("@
            + typst_string_of(key) + ", default: none)\n"@ + if inner.optional {
            Seq::<char>::empty()
        } else {
            panic_line(
                "  if "@ + var + " == none"@,
                path + ": missing required metadata field `"@ + label + "."@ + key + "`"@,
            )
        } + validation_code(var, label + "."@ + key, inner, path, "  "@)
    }
}

/// Appends the end of a check line: the panic with message `m`.
fn push_panic(out: &mut String, m: &str)
    ensures
        final(out)@ == old(out)@ + " { panic("@ + typst_string_of(m@) + ") }\n"@,
{
    out.append(" { panic(");
    out.append(typst_string(m).as_str());
    out.append(") }\n");
}

/// The message for a field of the wrong kind.
fn must_be_text(path: &str, label: &str, what: &str) -> (r: String)
    ensures
        r@ == must_be(path@, label@, what@),
{
    let mut m = String::from_str(path);
    m.append(": metadata field `");
    m.append(label);
    m.append("` must be ");
    m.append(what);
    m
}

/// `a`, then `b`, then `c`, as one string.
fn concat3(a: &str, b: &str, c: &str) -> (r: String)
    ensures
        r@ == a@ + b@ + c@,
{
    let mut s = String::from_str(a);
    s.append(b);
    s.append(c);
    s
}

/// The Typst lines that check the value `expr` of the field `label`
/// against `schema`, naming `message_path` in their messages.
pub fn metadata_schema_validation_typ(
    expr: &str,
    label: &str,
    schema: &MetadataFieldSchema,
    message_path: &str,
) -> (r: String)
    ensures
        r@ == validation_typ(expr@, label@, *schema, message_path@),
    decreases *schema, 1int,
{
    match &schema.kind {
        MetadataFieldKind::Any => String::new(),
        MetadataFieldKind::Builtin(n) => {
            let mut out = String::from_str("#if ");
            out.append(expr);
            out.append(" != none and not (");
            out.append(typst_type_condition(expr, n.as_str()).as_str());
            out.append(")");
            push_panic(&mut out, must_be_text(message_path, label, n.as_str()).as_str());
            out
        },
        MetadataFieldKind::Array(inner) => {
            let mut out = String::from_str("#if ");
            out.append(expr);
            out.append(" != none and type(");
            out.append(expr);
            out.append(") != array");
            push_panic(&mut out, must_be_text(message_path, label, "array").as_str());
            out.append("#if ");
            out.append(expr);
            out.append(" != none and type(");
            out.append(expr);
            out.append(") == array {\n  for __typage_item in ");
            out.append(expr);
            out.append(" {\n");
            let mut item_path = String::from_str(message_path);
            item_path.append("[]");
            proof {
                assert(decreases_to!(*schema => schema.kind));
                assert(decreases_to!(schema.kind => schema.kind->Array_0));
            }
            let nested = metadata_schema_validation_code(
                "__typage_item",
                label,
                inner,
                item_path.as_str(),
                "    ",
            );
            out.append(nested.as_str());
            out.append("  }\n}\n");
            out
        },
        MetadataFieldKind::Object(fields) => {
            let mut out = String::from_str("#if ");
            out.append(expr);
            out.append(" != none and type(");
            out.append(expr);
            out.append(") != dictionary");
            push_panic(&mut out, must_be_text(message_path, label, "dictionary").as_str());
            if fields_have_wildcard(fields) {
                return out;
            }
            out.append("#if ");
            out.append(expr);
            out.append(" != none and type(");
            out.append(expr);
            out.append(") == dictionary {\n");
            proof {
                assert(decreases_to!(*schema => schema.kind));
                assert(decreases_to!(schema.kind => schema.kind->Object_0));
            }
            let body = object_fields_code(expr, label, fields, message_path);
            out.append(body.as_str());
            out.append("}\n");
            out
        },
        MetadataFieldKind::Union(opts) => {
            let mut out = String::from_str("#if ");
            out.append(expr);
            out.append(" != none and not (");
            out.append(union_conditions_text(expr, opts).as_str());
            out.append(")");
            let mut m = String::from_str(message_path);
            m.append(": metadata field `");
            m.append(label);
            m.append("` does not match union schema");
            push_panic(&mut out, m.as_str());
            out
        },
    }
}

/// Whether one of the fields is named `*`.
fn fields_have_wildcard(fields: &SchemaFields) -> (r: bool)
    ensures
        r == has_wildcard(fields.entries@),
{
    let mut i: usize = 0;
    while i < fields.entries.len()
        invariant
            i <= fields.entries.len(),
            forall|j: int| 0 <= j < i ==> #[trigger] fields.entries@[j].0@ != "*"@,
        decreases fields.entries.len() - i,
    {
        let k = chars_of(fields.entries[i].0.as_str());
        if eq_str(&k, "*") {
            assert(fields.entries@[i as int].0@ == "*"@);
            return true;
        }
        i += 1;
    }
    false
}

/// The checks of the fields of the dictionary `expr`.
#[verifier::rlimit(40)]
fn object_fields_code(expr: &str, label: &str, fields: &SchemaFields, message_path: &str) -> (r:
    String)
    ensures
        r@ == fields_code(expr@, label@, fields.entries@, message_path@),
    decreases *fields, 3int,
{
    let ghost fs = fields.entries@;
    let mut out = String::new();
    let mut i: usize = 0;
    while i < fields.entries.len()
        invariant
            i <= fields.entries.len(),
            fs == fields.entries@,
            out@ == fields_code(expr@, label@, fs.take(i as int), message_path@),
        decreases fields.entries.len() - i,
    {
        assert(fs.take(i + 1).drop_last() =~= fs.take(i as int));
        assert(fs.take(i + 1).last() == fs[i as int]);
        let key = &fields.entries[i].0;
        let inner = &fields.entries[i].1;
        let mut var = String::from_str("__typage_obj_");
        var.append(string_of(&usize_to_decimal(i)).as_str());
        out.append("  let ");
        out.append(var.as_str());
        out.append(" = ");
        out.append(expr);
        out.append(".at(");
        out.append(typst_string(key.as_str()).as_str());
        out.append(", default: none)\n");
        if !inner.optional {
            out.append("  if ");
            out.append(var.as_str());
            out.append(" == none");
            let mut m = String::from_str(message_path);
            m.append(": missing required metadata field `");
            m.append(label);
            m.append(".");
            m.append(key.as_str());
            m.append("`");
            push_panic(&mut out, m.as_str());
        }
        let nested_label = concat3(label, ".", key.as_str());
        proof {
            assert(decreases_to!(*fields => fields.entries));
            assert(decreases_to!(fields.entries => fields.entries@));
            assert(decreases_to!(fields.entries@ => fields.entries@[i as int]));
            assert(decreases_to!(fields.entries@[i as int] => fields.entries@[i as int].1));
        }
        let nested = metadata_schema_validation_code(
            var.as_str(),
            nested_label.as_str(),
            inner,
            message_path,
            "  ",
        );
        out.append(nested.as_str());
        i += 1;
    }
    assert(fs.take(fields.entries.len() as int) =~= fs);
    out
}

/// The checks of `metadata_schema_validation_typ` as code-mode lines after
/// `indent`, for use inside a block.
pub fn metadata_schema_validation_code(
    expr: &str,
    label: &str,
    schema: &MetadataFieldSchema,
    message_path: &str,
    indent: &str,
) -> (r: String)
    ensures
        r@ == validation_code(expr@, label@, *schema, message_path@, indent@),
    decreases *schema, 2int,
{
    let typ = metadata_schema_validation_typ(expr, label, schema, message_path);
    let ls = lines_vec(&chars_of(typ.as_str()));
    let ghost lv = views(ls@);
    let mut out = String::new();
    let mut i: usize = 0;
    while i < ls.len()
        invariant
            i <= ls.len(),
            lv == views(ls@),
            lv == lines(typ@),
            out@ == indent_lines(lv.take(i as int), indent@),
        decreases ls.len() - i,
    {
        assert(lv.take(i + 1).drop_last() =~= lv.take(i as int));
        assert(lv.take(i + 1).last() == ls@[i as int]@);
        out.append(indent);
        push_chars(&mut out, &trim_start_char_vec(&ls[i], '#'));
        push_char(&mut out, '\n');
        i += 1;
    }
    assert(lv.take(ls.len() as int) =~= lv);
    out
}

/// Setting a field keeps the names in increasing order, holds the new
/// schema under its name, and keeps every entry of another name.
pub proof fn lemma_insert_field(
    s: Seq<(String, MetadataFieldSchema)>,
    name: String,
    schema: MetadataFieldSchema,
)
    requires
        names_increase(s),
    ensures
        names_increase(insert_field(s, name, schema)),
        insert_field(s, name, schema).contains((name, schema)),
        forall|j: int|
            0 <= j < s.len() && s[j].0@ != name@ ==> insert_field(s, name, schema).contains(
                #[trigger] s[j],
            ),
        forall|k: int|
            0 <= k < insert_field(s, name, schema).len() ==> (#[trigger] insert_field(
                s,
                name,
                schema,
            )[k] == (name, schema) || s.contains(insert_field(s, name, schema)[k])),
    decreases s.len(),
{
    let r = insert_field(s, name, schema);
    if s.len() == 0 {
        assert(r[0] == (name, schema));
    } else if s[0].0@ == name@ {
        assert(r[0] == (name, schema));
        assert forall|a: int, b: int| 0 <= a < b < r.len() implies text_lt(
            #[trigger] r[a].0@,
            #[trigger] r[b].0@,
        ) by {
            assert(r[a].0@ == s[a].0@);
            assert(r[b].0@ == s[b].0@);
        }
        assert forall|j: int| 0 <= j < s.len() && s[j].0@ != name@ implies r.contains(
            #[trigger] s[j],
        ) by {
            assert(j > 0);
            assert(r[j] == s[j]);
        }
        assert forall|k: int| 0 <= k < r.len() implies (#[trigger] r[k] == (name, schema)
            || s.contains(r[k])) by {
            if k > 0 {
                assert(r[k] == s[k]);
            }
        }
    } else if text_lt(name@, s[0].0@) {
        assert(r[0] == (name, schema));
        assert forall|a: int, b: int| 0 <= a < b < r.len() implies text_lt(
            #[trigger] r[a].0@,
            #[trigger] r[b].0@,
        ) by {
            assert(r[b] == s[b - 1]);
            if a == 0 {
                if b > 1 {
                    assert(text_lt(s[0].0@, s[b - 1].0@));
                    lemma_text_order3(name@, s[0].0@, s[b - 1].0@);
                }
            } else {
                assert(r[a] == s[a - 1]);
            }
        }
        assert forall|j: int| 0 <= j < s.len() && s[j].0@ != name@ implies r.contains(
            #[trigger] s[j],
        ) by {
            assert(r[j + 1] == s[j]);
        }
        assert forall|k: int| 0 <= k < r.len() implies (#[trigger] r[k] == (name, schema)
            || s.contains(r[k])) by {
            if k > 0 {
                assert(r[k] == s[k - 1]);
            }
        }
    } else {
        let t = s.drop_first();
        assert forall|a: int, b: int| 0 <= a < b < t.len() implies text_lt(
            #[trigger] t[a].0@,
            #[trigger] t[b].0@,
        ) by {
            assert(t[a] == s[a + 1]);
            assert(t[b] == s[b + 1]);
        }
        lemma_insert_field(t, name, schema);
        let rt = insert_field(t, name, schema);
        assert(r == seq![s[0]] + rt);
        lemma_text_order3(s[0].0@, name@, name@);
        assert(text_lt(s[0].0@, name@));
        assert forall|a: int, b: int| 0 <= a < b < r.len() implies text_lt(
            #[trigger] r[a].0@,
            #[trigger] r[b].0@,
        ) by {
            assert(r[b] == rt[b - 1]);
            if a == 0 {
                assert(r[0] == s[0]);
                if rt[b - 1] == (name, schema) {
                } else {
                    assert(t.contains(rt[b - 1]));
                    let m = choose|m: int| 0 <= m < t.len() && t[m] == rt[b - 1];
                    assert(t[m] == s[m + 1]);
                    assert(text_lt(s[0].0@, s[m + 1].0@));
                }
            } else {
                assert(r[a] == rt[a - 1]);
            }
        }
        assert forall|j: int| 0 <= j < s.len() && s[j].0@ != name@ implies r.contains(
            #[trigger] s[j],
        ) by {
            if j == 0 {
                assert(r[0] == s[0]);
            } else {
                assert(t[j - 1] == s[j]);
                assert(rt.contains(t[j - 1]));
                let m = choose|m: int| 0 <= m < rt.len() && rt[m] == t[j - 1];
                assert(r[m + 1] == rt[m]);
            }
        }
        assert(rt.contains((name, schema)));
        let m = choose|m: int| 0 <= m < rt.len() && rt[m] == (name, schema);
        assert(r[m + 1] == rt[m]);
        assert forall|k: int| 0 <= k < r.len() implies (#[trigger] r[k] == (name, schema)
            || s.contains(r[k])) by {
            if k == 0 {
                assert(r[0] == s[0]);
            } else {
                assert(r[k] == rt[k - 1]);
                if rt[k - 1] != (name, schema) {
                    assert(t.contains(rt[k - 1]));
                    let m2 = choose|m2: int| 0 <= m2 < t.len() && t[m2] == rt[k - 1];
                    assert(s[m2 + 1] == t[m2]);
                }
            }
        }
    }
}

impl SchemaFields {
    #[verifier::type_invariant]
    closed spec fn wf(self) -> bool {
        names_increase(self.entries@)
    }

    /// The fields in name order.
    pub closed spec fn entries(self) -> Seq<(String, MetadataFieldSchema)> {
        self.entries@
    }

    /// No fields.
    pub fn new() -> (r: SchemaFields)
        ensures
            r.entries() == Seq::<(String, MetadataFieldSchema)>::empty(),
    {
        SchemaFields { entries: Vec::new() }
    }

    /// Sets the schema of the field `name`.
    pub fn insert(&mut self, name: String, schema: MetadataFieldSchema)
        ensures
            final(self).entries() == insert_field(old(self).entries(), name, schema),
    {
        proof {
            use_type_invariant(&*self);
        }
        let mut entries: Vec<(String, MetadataFieldSchema)> = Vec::new();
        std::mem::swap(&mut entries, &mut self.entries);
        let ghost s = entries@;
        let key = chars_of(name.as_str());
        let mut i: usize = 0;
        while i < entries.len()
            invariant
                i <= entries.len(),
                entries@ == s,
                key@ == name@,
                names_increase(s),
                forall|j: int| 0 <= j < i ==> #[trigger] text_lt(s[j].0@, name@),
            ensures
                i <= entries.len(),
                entries@ == s,
                i < entries.len() ==> !text_lt(s[i as int].0@, name@),
                forall|j: int| 0 <= j < i ==> #[trigger] text_lt(s[j].0@, name@),
            decreases entries.len() - i,
        {
            let k = chars_of(entries[i].0.as_str());
            if !text_less(&k, &key) {
                break;
            }
            i += 1;
        }
        proof {
            lemma_insert_field_skip(s, i as int, name, schema);
        }
        let ghost rest = s.skip(i as int);
        let same = i < entries.len() && vec_eq(&chars_of(entries[i].0.as_str()), &key);
        if same {
            assert(rest[0] == s[i as int]);
            assert(insert_field(rest, name, schema) =~= seq![(name, schema)] + rest.drop_first());
            entries.set(i, (name, schema));
            assert(entries@ =~= s.take(i as int) + insert_field(rest, name, schema));
            proof {
                assert forall|a: int, b: int| 0 <= a < b < entries@.len() implies text_lt(
                    #[trigger] entries@[a].0@,
                    #[trigger] entries@[b].0@,
                ) by {
                    assert(entries@[a].0@ == s[a].0@);
                    assert(entries@[b].0@ == s[b].0@);
                }
            }
        } else {
            proof {
                if i < s.len() {
                    assert(rest[0] == s[i as int]);
                    lemma_text_order3(s[i as int].0@, name@, name@);
                    assert(text_lt(name@, rest[0].0@));
                    assert(insert_field(rest, name, schema) =~= seq![(name, schema)] + rest);
                } else {
                    assert(rest =~= Seq::<(String, MetadataFieldSchema)>::empty());
                }
            }
            let ghost nm = name@;
            entries.insert(i, (name, schema));
            assert(entries@ =~= s.take(i as int) + insert_field(rest, name, schema));
            proof {
                assert forall|a: int, b: int| 0 <= a < b < entries@.len() implies text_lt(
                    #[trigger] entries@[a].0@,
                    #[trigger] entries@[b].0@,
                ) by {
                    if b < i {
                        assert(entries@[a] == s[a]);
                        assert(entries@[b] == s[b]);
                    } else if b == i {
                        assert(entries@[a] == s[a]);
                        assert(entries@[b].0@ == nm);
                    } else if a < i {
                        assert(entries@[a] == s[a]);
                        assert(entries@[b] == s[b - 1]);
                        lemma_text_order3(s[a].0@, nm, s[i as int].0@);
                        lemma_text_order3(s[a].0@, s[i as int].0@, s[b - 1].0@);
                        if b - 1 > i {
                            assert(text_lt(s[i as int].0@, s[b - 1].0@));
                        }
                    } else if a == i {
                        assert(entries@[a].0@ == nm);
                        assert(entries@[b] == s[b - 1]);
                        lemma_text_order3(nm, s[i as int].0@, s[b - 1].0@);
                        if b - 1 > i {
                            assert(text_lt(s[i as int].0@, s[b - 1].0@));
                        }
                    } else {
                        assert(entries@[a] == s[a - 1]);
                        assert(entries@[b] == s[b - 1]);
                    }
                }
            }
        }
        self.entries = entries;
    }
}


/// The metadata schema of a content collection.
pub struct CollectionSchema {
    /// The fields, by name.
    pub fields: SchemaFields,
}

/// The collection schemas of a site, by collection name.
pub struct ContentCollections {
    collections: Vec<(String, CollectionSchema)>,
}

/// The map that a list of named collections describes: a later entry for a
/// name replaces an earlier one.
pub open spec fn collections_map(s: Seq<(String, CollectionSchema)>) -> Map<
    Seq<char>,
    CollectionSchema,
>
    decreases s.len(),
{
    if s.len() == 0 {
        Map::empty()
    } else {
        collections_map(s.drop_last()).insert(s.last().0@, s.last().1)
    }
}

/// The schema for the pages of `section`: the collection named after the
/// section, else the one named after its first `/`-separated part.
pub open spec fn schema_for_of(m: Map<Seq<char>, CollectionSchema>, section: Seq<char>) -> Option<
    CollectionSchema,
> {
    if m.contains_key(section) {
        Some(m[section])
    } else if m.contains_key(split_char(section, '/')[0]) {
        Some(m[split_char(section, '/')[0]])
    } else {
        None
    }
}

impl ContentCollections {
    /// The collections by name.
    pub closed spec fn view_map(self) -> Map<Seq<char>, CollectionSchema> {
        collections_map(self.collections@)
    }

    /// No collections.
    pub fn new() -> (r: ContentCollections)
        ensures
            r.view_map() == Map::<Seq<char>, CollectionSchema>::empty(),
    {
        ContentCollections { collections: Vec::new() }
    }

    /// Sets the schema of the collection `name`.
    pub fn insert(&mut self, name: String, schema: CollectionSchema)
        ensures
            final(self).view_map() == old(self).view_map().insert(name@, schema),
    {
        let ghost s0 = self.collections@;
        self.collections.push((name, schema));
        assert(self.collections@.drop_last() =~= s0);
    }

    /// The collection named `name`, if there is one.
    fn get(&self, name: &Vec<char>) -> (r: Option<&CollectionSchema>)
        ensures
            r matches Some(c) ==> self.view_map().contains_key(name@) && *c == self.view_map()[name@],
            r is None ==> !self.view_map().contains_key(name@),
    {
        let ghost t = self.collections@;
        let mut i: usize = self.collections.len();
        assert(t.take(i as int) =~= t);
        while i > 0
            invariant
                i <= self.collections.len(),
                t == self.collections@,
                collections_map(t).contains_key(name@) == collections_map(t.take(i as int)).contains_key(
                    name@,
                ),
                collections_map(t).contains_key(name@) ==> collections_map(t)[name@]
                    == collections_map(t.take(i as int))[name@],
            decreases i,
        {
            assert(t.take(i as int).drop_last() =~= t.take(i - 1));
            assert(t.take(i as int).last() == t[i - 1]);
            if vec_eq(&chars_of(self.collections[i - 1].0.as_str()), name) {
                return Some(&self.collections[i - 1].1);
            }
            i -= 1;
        }
        None
    }

    /// The schema for the pages of `section`.
    pub fn schema_for(&self, section: &str) -> (r: Option<&CollectionSchema>)
        ensures
            r matches Some(c) ==> schema_for_of(self.view_map(), section@) == Some(*c),
            r is None ==> schema_for_of(self.view_map(), section@) is None,
    {
        let sc = chars_of(section);
        match self.get(&sc) {
            Some(c) => Some(c),
            None => {
                let parts = split_char_vec(&sc, '/');
                proof {
                    lemma_split_char_nonempty(sc@, '/');
                }
                assert(parts@[0]@ == split_char(section@, '/')[0]);
                self.get(&parts[0])
            },
        }
    }
}

/// The checks of a page's metadata fields against the fields `fs` of its
/// collection schema, field by field: the value bound to a variable, its
/// presence checked unless it is optional, and the value checked against
/// its schema; messages name the page by `rel`.
pub open spec fn page_fields_code(rel: Seq<char>, fs: Seq<(String, MetadataFieldSchema)>) -> Seq<
    char,
>
    decreases fs.len(),
{
    if fs.len() == 0 {
        Seq::<char>::empty()
    } else {
        let idx = (fs.len() - 1) as nat;
        let name = fs.last().0@;
        let field = fs.last().1;
        let var = "__typage_meta_"@ + decimal(idx);
        page_fields_code(rel, fs.drop_last()) + "#let "@ + var + " = __typage_current.at("@
            + typst_string_of(name) + ", default: none)\n"@ + if field.optional {
            Seq::<char>::empty()
        } else {
            panic_line("#if "@ + var + " == none"@, rel + ": missing required metadata field `"@ + name + "`"@)
        } + validation_typ(var, name, field, rel + "."@ + name)
    }
}

/// The metadata checks of a page wrapper: empty when no collection schema
/// covers the page's section.
pub open spec fn page_validation_of(
    rel: Seq<char>,
    section: Seq<char>,
    collections: Map<Seq<char>, CollectionSchema>,
) -> Seq<char> {
    match schema_for_of(collections, section) {
        None => Seq::<char>::empty(),
        Some(c) => page_fields_code(rel, c.fields.entries()),
    }
}

/// The Typst checks of `page`'s metadata against the schema of its
/// collection.
pub fn page_metadata_validation_typ(page: &Page, collections: &ContentCollections) -> (r: String)
    ensures
        r@ == page_validation_of(page.rel@, page.section@, collections.view_map()),
{
    let schema = match collections.schema_for(page.section.as_str()) {
        None => {
            return String::new();
        },
        Some(c) => c,
    };
    let fields = &schema.fields;
    let ghost fs = fields.entries@;
    let rel = page.rel.as_str();
    let mut out = String::new();
    let mut i: usize = 0;
    while i < fields.entries.len()
        invariant
            i <= fields.entries.len(),
            fs == fields.entries@,
            out@ == page_fields_code(rel@, fs.take(i as int)),
        decreases fields.entries.len() - i,
    {
        assert(fs.take(i + 1).drop_last() =~= fs.take(i as int));
        assert(fs.take(i + 1).last() == fs[i as int]);
        let name = &fields.entries[i].0;
        let field = &fields.entries[i].1;
        let mut var = String::from_str("__typage_meta_");
        var.append(string_of(&usize_to_decimal(i)).as_str());
        out.append("#let ");
        out.append(var.as_str());
        out.append(" = __typage_current.at(");
        out.append(typst_string(name.as_str()).as_str());
        out.append(", default: none)\n");
        if !field.optional {
            out.append("#if ");
            out.append(var.as_str());
            out.append(" == none");
            let mut m = String::from_str(rel);
            m.append(": missing required metadata field `");
            m.append(name.as_str());
            m.append("`");
            push_panic(&mut out, m.as_str());
        }
        let path = concat3(rel, ".", name.as_str());
        out.append(metadata_schema_validation_typ(var.as_str(), name.as_str(), field, path.as_str()).as_str());
        i += 1;
    }
    assert(fs.take(fields.entries.len() as int) =~= fs);
    out
}

} // verus!
