use typage::model::{FrontMatter, Page};
use typage::schema::{
    metadata_schema_match_condition, metadata_schema_validation_code,
    metadata_schema_validation_typ, page_metadata_validation_typ, typst_type_condition,
    CollectionSchema, ContentCollections, MetadataFieldKind, MetadataFieldSchema, SchemaFields,
};

fn builtin(name: &str, optional: bool) -> MetadataFieldSchema {
    MetadataFieldSchema { optional, kind: MetadataFieldKind::Builtin(name.to_string()) }
}

fn page_in(rel: &str, section: &str) -> Page {
    Page {
        source: format!("content/{rel}"),
        rel: rel.to_string(),
        body: String::new(),
        processed_body: String::new(),
        meta: FrontMatter::default(),
        title: String::new(),
        url: "/".to_string(),
        canonical_url: "/".to_string(),
        slug: String::new(),
        path: String::new(),
        file_path: rel.to_string(),
        output_html: String::new(),
        output_pdf: String::new(),
        template: "page.typ".to_string(),
        section: section.to_string(),
        parent_section: None,
        ancestors: Vec::new(),
        toc: Vec::new(),
        hash: String::new(),
        prev_title: None,
        prev_url: None,
        next_title: None,
        next_url: None,
    }
}

#[test]
fn type_conditions_follow_typst_type_names() {
    assert_eq!(typst_type_condition("x", "date"), "type(x) == datetime or type(x) == str");
    assert_eq!(typst_type_condition("x", "url"), "type(x) == str");
    assert_eq!(
        typst_type_condition("x", "number"),
        "type(x) == int or type(x) == float or type(x) == decimal"
    );
    assert_eq!(typst_type_condition("x", "none"), "x == none");
    assert_eq!(typst_type_condition("x", "auto"), "x == auto");
    assert_eq!(typst_type_condition("x", "str"), "type(x) == str");
}

#[test]
fn match_conditions_allow_none_for_optional_schemas() {
    assert_eq!(metadata_schema_match_condition("v", &builtin("int", true)), "v == none or (type(v) == int)");
    let union = MetadataFieldSchema {
        optional: false,
        kind: MetadataFieldKind::Union(vec![
            builtin("str", false),
            MetadataFieldSchema {
                optional: false,
                kind: MetadataFieldKind::Array(Box::new(builtin("str", false))),
            },
        ]),
    };
    assert_eq!(metadata_schema_match_condition("v", &union), "type(v) == str or type(v) == array");
}

#[test]
fn builtin_and_union_fields_get_one_check_line() {
    assert_eq!(
        metadata_schema_validation_typ("v", "title", &builtin("str", false), "p.title"),
        "#if v != none and not (type(v) == str) { panic(\"p.title: metadata field `title` must be str\") }\n"
    );
    let status = MetadataFieldSchema {
        optional: false,
        kind: MetadataFieldKind::Union(vec![builtin("str", false), builtin("none", false)]),
    };
    assert_eq!(
        metadata_schema_validation_typ("v", "status", &status, "p.status"),
        "#if v != none and not (type(v) == str or v == none) { panic(\"p.status: metadata field `status` does not match union schema\") }\n"
    );
    let any = MetadataFieldSchema { optional: true, kind: MetadataFieldKind::Any };
    assert_eq!(metadata_schema_validation_typ("v", "x", &any, "p.x"), "");
}

#[test]
fn array_fields_check_each_item() {
    let tags = MetadataFieldSchema {
        optional: true,
        kind: MetadataFieldKind::Array(Box::new(builtin("str", false))),
    };
    assert_eq!(
        metadata_schema_validation_typ("v", "tags", &tags, "p.tags"),
        ["#if v != none and type(v) != array { panic(\"p.tags: metadata field `tags` must be array\") }\n", "#if v != none and type(v) == array {\n  for __typage_item in v {\n    ", "if __typage_item != none and not (type(__typage_item) == str) { panic(\"p.tags[]: metadata field `tags` must be str\") }\n  }\n}\n"].concat()
    );
}

#[test]
fn object_fields_are_checked_in_name_order() {
    let mut fields = SchemaFields::new();
    fields.insert("year".to_string(), builtin("int", true));
    fields.insert("author".to_string(), builtin("str", false));
    let meta = MetadataFieldSchema { optional: false, kind: MetadataFieldKind::Object(fields) };
    assert_eq!(
        metadata_schema_validation_typ("v", "meta", &meta, "p.meta"),
        ["#if v != none and type(v) != dictionary { panic(\"p.meta: metadata field `meta` must be dictionary\") }\n", "#if v != none and type(v) == dictionary {\n", "  let __typage_obj_0 = v.at(\"author\", default: none)\n", "  if __typage_obj_0 == none { panic(\"p.meta: missing required metadata field `meta.author`\") }\n", "  if __typage_obj_0 != none and not (type(__typage_obj_0) == str) { panic(\"p.meta: metadata field `meta.author` must be str\") }\n", "  let __typage_obj_1 = v.at(\"year\", default: none)\n", "  if __typage_obj_1 != none and not (type(__typage_obj_1) == int) { panic(\"p.meta: metadata field `meta.year` must be int\") }\n", "}\n"].concat()
    );
    let mut open_fields = SchemaFields::new();
    open_fields.insert("*".to_string(), MetadataFieldSchema { optional: true, kind: MetadataFieldKind::Any });
    let open = MetadataFieldSchema { optional: false, kind: MetadataFieldKind::Object(open_fields) };
    assert_eq!(
        metadata_schema_validation_typ("v", "extra", &open, "p.extra"),
        "#if v != none and type(v) != dictionary { panic(\"p.extra: metadata field `extra` must be dictionary\") }\n"
    );
}

#[test]
fn validation_code_indents_lines_without_hashes() {
    assert_eq!(
        metadata_schema_validation_code("x", "n", &builtin("int", false), "p", "  "),
        "  if x != none and not (type(x) == int) { panic(\"p: metadata field `n` must be int\") }\n"
    );
}

#[test]
fn page_checks_use_the_collection_of_the_top_section() {
    let mut fields = SchemaFields::new();
    fields.insert("title".to_string(), builtin("str", false));
    let mut collections = ContentCollections::new();
    collections.insert("posts".to_string(), CollectionSchema { fields });
    assert_eq!(
        page_metadata_validation_typ(&page_in("posts/a.typ", "posts/2024"), &collections),
        ["#let __typage_meta_0 = __typage_current.at(\"title\", default: none)\n", "#if __typage_meta_0 == none { panic(\"posts/a.typ: missing required metadata field `title`\") }\n", "#if __typage_meta_0 != none and not (type(__typage_meta_0) == str) { panic(\"posts/a.typ.title: metadata field `title` must be str\") }\n"].concat()
    );
    assert_eq!(page_metadata_validation_typ(&page_in("notes/b.typ", "notes"), &collections), "");
    assert!(collections.schema_for("posts").is_some());
    assert!(collections.schema_for("posts/deep/er").is_some());
    assert!(collections.schema_for("pages").is_none());
}
