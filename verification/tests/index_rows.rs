//! Rows of the metadata layer.

use bsl_extension::index_extras::config_refs::{
    config_link_rows, needs_ids, AreaRefs, FunctionalOption,
};
use bsl_extension::index_extras::contents::{
    bulk_outcome, decode_module_lines, lines_of_bytes, lines_of_file, MAX_DECOMPRESSED,
};
use bsl_extension::index_extras::groups::group_by_name;
use bsl_extension::index_extras::links::{
    defined_type_links, exchange_plan_links, form_links, functional_option_links, needs_id_map,
    object_links, resolve_items, subsystem_links, LinkRow,
};
use bsl_extension::index_extras::names::{build_id_map, collect_synonyms, NameMap, ObjectHeader};
use bsl_extension::index_extras::paths::{
    equal_but_case, is_template_content_path, make_full_name, template_owner_from_path, PathParts,
};
use bsl_extension::index_extras::procedures::{
    module_header_row, path_of_key, procedure_rows, split_tags, staged_procedure_rows, ModuleRow,
    ProcRow, StagedProc,
};
use bsl_extension::index_extras::templates::{
    extension_of, find_template_content, has_text_extension, is_binary_template_content, name_key,
    note_for, template_passport, template_row,
};
use bsl_extension::json::texts_to_json;
use bsl_extension::xml::forms::DataLinkEdge;

fn strings(v: &[&str]) -> Vec<String> {
    v.iter().map(|s| s.to_string()).collect()
}

/// Parts of a path as the application takes them.
fn parts(path: &str) -> PathParts {
    let p = std::path::Path::new(path);
    PathParts {
        file: p.file_name().and_then(|s| s.to_str()).map(String::from),
        stem: p.file_stem().and_then(|s| s.to_str()).map(String::from),
        extension: p.extension().and_then(|s| s.to_str()).map(String::from),
        folders: p
            .ancestors()
            .skip(1)
            .map(|a| a.file_name().and_then(|s| s.to_str()).map(String::from))
            .collect(),
    }
}

fn row(from: &str, path: &str, to: &str, kind: &'static str, flags: (bool, bool)) -> LinkRow {
    LinkRow {
        from_object: from.to_string(),
        from_path: path.to_string(),
        to_object: to.to_string(),
        link_kind: kind,
        is_composite: flags.0,
        is_universal: flags.1,
    }
}

#[test]
fn files_by_their_paths() {
    let nested = parts("base/Subsystems/А/Subsystems/Б.xml");
    assert_eq!(nested.subsystem(), Some("Б".to_string()));
    assert!(nested.is_subsystem() && nested.is_xml());
    assert_eq!(parts("Subsystems/А/Ext/Б.xml").subsystem(), None);
    assert_eq!(parts("Subsystems/А.txt").subsystem(), None);
    assert_eq!(parts("Catalogs/А.б.xml").object(), Some("А.б".to_string()));
    assert_eq!(parts("Catalogs/А.XML").object(), None);
    assert_eq!(parts("Catalogs/.xml").object(), None);
    let content = parts("ExchangePlans/П/Ext/Content.xml");
    assert_eq!(content.owner_of("Content.xml"), Some("П".to_string()));
    assert_eq!(content.owner_of("Rights.xml"), None);
    assert_eq!(parts("Content.xml").owner_of("Content.xml"), None);
    assert!(parts("EventSubscriptions/С.xml").is_event_subscription());
    assert!(!parts("EventSubscriptions/А/С.xml").is_event_subscription());
    assert!(parts("Catalogs/К/Templates/М.xml").is_template());
    assert!(!parts("Catalogs/К/Templates/М/Ext/Template.xml").is_template());
    assert!(is_template_content_path(&parts("Templates/М/Ext/Template.xml")));
    assert!(!is_template_content_path(&parts("Templates/М/Template.xml")));
    assert!(!is_template_content_path(&parts("Templates/М/Ext/Template.txt")));
    assert!(parts("a/b.Bsl").is_module() && parts("b.bsl").is_module());
    assert!(!parts("b.bslx").is_module() && !parts("bsl").is_module());
    assert!(parts("F/Form.xml").is_file("Form.xml"));
    assert!(equal_but_case("aZ[9я", "Az[9я") && !equal_but_case("Я", "я"));
}

#[test]
fn owner_of_a_template() {
    let table = vec![
        ("Catalogs".to_string(), "Catalog".to_string()),
        ("Catalogs".to_string(), "Other".to_string()),
        ("Reports".to_string(), "Report".to_string()),
    ];
    let owner = |path: &str| template_owner_from_path(&parts(path), &table);
    assert_eq!(
        owner("base/Catalogs/Контрагенты/Templates/X.xml"),
        Some("Catalog.Контрагенты".to_string())
    );
    assert_eq!(owner("Reports/О/Templates/X.xml"), Some("Report.О".to_string()));
    assert_eq!(owner("Unknown/О/Templates/X.xml"), None);
    assert_eq!(owner("О/Templates/X.xml"), None);
    assert_eq!(owner("X.xml"), None);
    assert_eq!(make_full_name("Catalog", "К"), "Catalog.К");
}

#[test]
fn identifiers_of_all_areas() {
    let pair = |a: &str, b: &str| (a.to_string(), b.to_string());
    let areas = vec![
        Some(vec![pair("1", "Catalog.А"), pair("2", "Catalog.Б")]),
        None,
        Some(vec![pair("2", "Catalog.В")]),
    ];
    let map = build_id_map(&areas);
    assert_eq!(map.get("1"), Some("Catalog.А".to_string()));
    assert_eq!(map.get("2"), Some("Catalog.В".to_string()));
    assert_eq!(map.get("3"), None);
    let mut map = NameMap::new();
    map.put_first("k".to_string(), "a".to_string());
    map.put_first("k".to_string(), "b".to_string());
    assert_eq!(map.get("k"), Some("a".to_string()));
    map.put("k".to_string(), "c".to_string());
    assert_eq!(map.get("k"), Some("c".to_string()));
}

#[test]
fn first_synonym_wins() {
    let header = |name: &str, synonym: Option<&str>| ObjectHeader {
        kind: "Catalog".to_string(),
        name: name.to_string(),
        synonym: synonym.map(String::from),
    };
    let map = collect_synonyms(&vec![
        header("А", Some("")),
        header("А", Some("первый")),
        header("А", Some("второй")),
        header("Б", None),
    ]);
    assert_eq!(map.get("Catalog.А"), Some("первый".to_string()));
    assert_eq!(map.get("Catalog.Б"), None);
}

#[test]
fn content_of_subsystems() {
    let mut ids = NameMap::new();
    ids.put("id1".to_string(), "Catalog.А".to_string());
    let items = strings(&["Document.Д", "id1", "id2"]);
    assert!(needs_id_map(&items));
    assert!(!needs_id_map(&strings(&["Document.Д"])));
    assert!(!needs_id_map(&vec![]));
    assert_eq!(resolve_items(&items, &ids), vec!["Document.Д", "Catalog.А"]);
    assert_eq!(
        subsystem_links("С", &items, &ids),
        vec![
            row("Subsystem.С", "", "Document.Д", "subsystem_content", (false, false)),
            row("Subsystem.С", "", "Catalog.А", "subsystem_content", (false, false)),
        ]
    );
}

#[test]
fn links_of_the_configuration() {
    assert_eq!(
        exchange_plan_links("П", &strings(&["Catalog.А"])),
        vec![row("ExchangePlan.П", "", "Catalog.А", "exchange_plan_content", (false, false))]
    );
    let one = vec![("Catalog.А".to_string(), true)];
    assert_eq!(
        defined_type_links("Т", &one),
        vec![row("DefinedType.Т", "", "Catalog.А", "defined_type_content", (false, true))]
    );
    let two = vec![("Catalog.А".to_string(), false), ("Catalog".to_string(), true)];
    assert_eq!(
        defined_type_links("Т", &two),
        vec![
            row("DefinedType.Т", "", "Catalog.А", "defined_type_content", (true, false)),
            row("DefinedType.Т", "", "Catalog", "defined_type_content", (true, true)),
        ]
    );
    let place = Some(("Constant.К".to_string(), "Constant.К.Value".to_string()));
    let from = "FunctionalOption.Ф";
    assert_eq!(
        functional_option_links("Ф", &place, &strings(&["Document.Д"])),
        vec![
            row(from, "Constant.К.Value", "Constant.К", "functional_option_location", (false, false)),
            row(from, "", "Document.Д", "functional_option_content", (false, false)),
        ]
    );
    assert!(functional_option_links("Ф", &None, &vec![]).is_empty());
}

#[test]
fn links_of_objects_and_forms() {
    let edges = vec![DataLinkEdge {
        from_path: "Склад".to_string(),
        to_object: "Catalog.Склады".to_string(),
        link_kind: "form_attr",
        is_composite: true,
        is_universal: false,
    }];
    assert_eq!(
        object_links("Document.Д", &edges),
        vec![row("Document.Д", "Склад", "Catalog.Склады", "form_attr", (true, false))]
    );
    assert_eq!(
        form_links("Document.Д", "Ф", &edges),
        vec![row("Document.Д", "Form.Ф.Склад", "Catalog.Склады", "form_attr", (true, false))]
    );
}

fn area(subsystem: &str, item: &str) -> AreaRefs {
    AreaRefs {
        subsystems: vec![(subsystem.to_string(), strings(&[item]))],
        exchange_plans: vec![("П".to_string(), strings(&["Catalog.П"]))],
        defined_types: vec![("Т".to_string(), vec![("Catalog.Т".to_string(), false)])],
        functional_options: vec![FunctionalOption {
            name: "Ф".to_string(),
            location: None,
            content: strings(&["Catalog.Ф"]),
        }],
    }
}

#[test]
fn rows_of_whole_configurations() {
    let mut ids = NameMap::new();
    ids.put("id".to_string(), "Catalog.Б".to_string());
    let areas = vec![area("А", "Catalog.А"), area("Б", "id")];
    assert!(needs_ids(&areas));
    let kinds: Vec<(String, String, &str)> = config_link_rows(&areas, &ids)
        .into_iter()
        .map(|r| (r.from_object, r.to_object, r.link_kind))
        .collect();
    let rest = [
        ("ExchangePlan.П", "Catalog.П", "exchange_plan_content"),
        ("DefinedType.Т", "Catalog.Т", "defined_type_content"),
        ("FunctionalOption.Ф", "Catalog.Ф", "functional_option_content"),
    ];
    let mut want = vec![("Subsystem.А", "Catalog.А", "subsystem_content")];
    want.extend(rest);
    want.push(("Subsystem.Б", "Catalog.Б", "subsystem_content"));
    want.extend(rest);
    let want: Vec<(String, String, &str)> =
        want.into_iter().map(|(a, b, c)| (a.to_string(), b.to_string(), c)).collect();
    assert_eq!(kinds, want);
    let own = [
        "subsystem_content",
        "exchange_plan_content",
        "defined_type_content",
        "functional_option_location",
        "functional_option_content",
    ];
    assert!(kinds.iter().all(|k| own.contains(&k.2)));
    // Without the map the identifier gives no row.
    assert_eq!(config_link_rows(&areas, &NameMap::new()).len(), 7);
    assert!(config_link_rows(&vec![], &ids).is_empty());
}

#[test]
fn identifiers_matter_only_when_needed() {
    let mut ids = NameMap::new();
    ids.put("Catalog.А".to_string(), "Catalog.Другой".to_string());
    let areas = vec![area("А", "Catalog.А")];
    assert!(!needs_ids(&areas));
    assert_eq!(config_link_rows(&areas, &ids), config_link_rows(&areas, &NameMap::new()));
}

#[test]
fn groups_of_rows() {
    let groups = group_by_name(&strings(&["б", "а", "б", "в", "а", "б"]));
    assert_eq!(
        groups,
        vec![
            ("б".to_string(), vec![0, 2, 5]),
            ("а".to_string(), vec![1, 4]),
            ("в".to_string(), vec![3]),
        ]
    );
    assert!(group_by_name(&vec![]).is_empty());
}

fn module() -> Vec<String> {
    strings(&[
        "// Обмен с весами.",
        "// @tags весы, обмен",
        "// @depends Кэш; Порт",
        "",
        "// Читает вес.",
        "// @tags чтение, весы",
        "Функция ПрочитатьВес() Экспорт",
        "КонецФункции",
        "Процедура ___()",
    ])
}

fn synonyms() -> NameMap {
    let mut map = NameMap::new();
    map.put("Catalog.Весы".to_string(), "Весы торговые".to_string());
    map
}

#[test]
fn rows_of_a_module() {
    let path = "Catalogs/Весы/Ext/ManagerModule.bsl";
    assert_eq!(
        module_header_row(path, &module()),
        Some(ModuleRow {
            path: path.to_string(),
            header: "Обмен с весами.".to_string(),
            tags: "весы, обмен".to_string(),
            depends: "кэш; порт".to_string(),
        })
    );
    assert_eq!(module_header_row(path, &strings(&["Процедура П()"])), None);
    let procs = vec![("ПрочитатьВес".to_string(), 7), ("П2".to_string(), -3)];
    assert_eq!(
        procedure_rows(path, &module(), &procs, &synonyms()),
        vec![
            ProcRow {
                proc_key: format!("{path}::ПрочитатьВес"),
                terms: "чтение, весы, прочитать вес, весы торговые, читает вес., обмен".to_string(),
                tags: "чтение, весы".to_string(),
                comment_head: "Читает вес.".to_string(),
                comment_len: 11 + 1 + 18,
            },
            ProcRow {
                proc_key: format!("{path}::П2"),
                terms: "п 2, весы, весы торговые, обмен".to_string(),
                tags: String::new(),
                comment_head: String::new(),
                comment_len: 0,
            },
        ]
    );
    // Without terms there is no row.
    let none = vec![("___".to_string(), 9)];
    assert!(procedure_rows("x.bsl", &strings(&["Код"]), &none, &NameMap::new()).is_empty());
}

#[test]
fn kept_procedures_give_the_same_rows() {
    let path = "Catalogs/Весы/Ext/ManagerModule.bsl";
    let procs = vec![("ПрочитатьВес".to_string(), 7), ("Прочее".to_string(), 0)];
    let direct = procedure_rows(path, &module(), &procs, &synonyms());
    let kept = |name: &str, prose: &str, head: &str, tags: &str, len: i64| StagedProc {
        proc_key: format!("{path}::{name}"),
        proc_name: name.to_string(),
        object_meta_type: Some("Catalog".to_string()),
        object_name: Some("Весы".to_string()),
        comment_prose: prose.to_string(),
        comment_head: head.to_string(),
        comment_tags: tags.to_string(),
        comment_len: len,
    };
    let staged = vec![
        kept("ПрочитатьВес", "Читает вес.", "Читает вес.", "чтение, весы", 30),
        kept("Прочее", "", "", "", 0),
    ];
    let mut modules = vec![module_header_row(path, &module()).unwrap()];
    assert_eq!(staged_procedure_rows(&staged, &modules, &synonyms()), direct);
    // The last header of a path counts; without a header there are no tags of a module.
    modules.insert(
        0,
        ModuleRow {
            path: path.to_string(),
            header: String::new(),
            tags: "лишний".to_string(),
            depends: String::new(),
        },
    );
    assert_eq!(staged_procedure_rows(&staged, &modules, &synonyms()), direct);
    let bare = staged_procedure_rows(&staged, &vec![], &NameMap::new());
    assert_eq!(bare[1].terms, "прочее, весы");
    // A length of zero hides a comment from the terms, not from the row.
    let hidden = vec![kept("Прочее", "проза", "голова", "тег", 0)];
    let rows = staged_procedure_rows(&hidden, &vec![], &NameMap::new());
    assert_eq!(rows[0].terms, "прочее, весы");
    assert_eq!((rows[0].tags.as_str(), rows[0].comment_head.as_str()), ("тег", "голова"));
}

#[test]
fn tags_and_paths_come_back() {
    let tags = strings(&["весы", "учет партий"]);
    assert_eq!(split_tags(&tags.join(", ")), tags);
    assert_eq!(split_tags(" а,, б ,"), vec!["а", "б"]);
    assert!(split_tags("").is_empty());
    assert_eq!(path_of_key("a/b.bsl::Имя::x"), "a/b.bsl");
    assert_eq!(path_of_key("a:b"), "a:b");
    assert_eq!(path_of_key(""), "");
}

fn template(content: Option<&str>, size: Option<u64>) -> (String, bool) {
    let header = ObjectHeader {
        kind: "Template".to_string(),
        name: "Печать".to_string(),
        synonym: Some("Печатная форма".to_string()),
    };
    let row = template_row(
        "Document.Д".to_string(),
        header,
        Some("SpreadsheetDocument".to_string()),
        content.map(String::from),
        size,
    )
    .unwrap();
    assert_eq!(row.full_name, "Document.Д.Template.Печать");
    assert_eq!(row.name, "Печать");
    assert_eq!(row.synonym.as_deref(), Some("Печатная форма"));
    template_passport(&row, content == Some("known.xml"))
}

#[test]
fn passports_of_templates() {
    let (text, indexed) = template(Some("known.xml"), Some(12));
    assert!(indexed);
    assert_eq!(
        text,
        concat_text(&[
            r#"{"content_file":"known.xml","content_indexed":true,"content_size_bytes":12,"#,
            r#""owner":"Document.Д","template_type":"SpreadsheetDocument"}"#,
        ])
    );
    for (content, note) in [
        (None, note_for(None)),
        (Some("a/Template.BIN"), note_for(Some(true))),
        (Some("a/Template.XML"), note_for(Some(false))),
    ] {
        let (text, indexed) = template(content, None);
        assert!(!indexed);
        let value: serde_json::Value = serde_json::from_str(&text).unwrap();
        assert_eq!(value["content_note"], note);
        assert_eq!(value["content_indexed"], false);
        assert_eq!(value.get("content_file").is_some(), content.is_some());
        assert!(value.get("content_size_bytes").is_none());
    }
    assert_eq!(
        note_for(Some(false)),
        "содержимое макета не проиндексировано: файл превышает предел размера \
         текстового файла (настройка max_file_size) — поиск по его тексту \
         работать не будет, сам макет существует"
    );
    assert_eq!(
        note_for(Some(true)),
        "содержимое макета двоичное (внешняя компонента, двоичные данные) — \
         в индекс не берётся; сам макет существует"
    );
}

#[test]
fn notes_of_templates_differ() {
    assert_ne!(note_for(None), note_for(Some(true)));
    assert_ne!(note_for(None), note_for(Some(false)));
    assert_ne!(note_for(Some(true)), note_for(Some(false)));
}

fn concat_text(v: &[&str]) -> String {
    v.concat()
}

#[test]
fn other_descriptions_are_no_templates() {
    let header = ObjectHeader {
        kind: "Catalog".to_string(),
        name: "К".to_string(),
        synonym: None,
    };
    assert!(template_row("Catalog.К".to_string(), header, None, None, None).is_none());
    assert_eq!(name_key("Document.Д.Template.Печать"), "document.д.template.печать");
}

#[test]
fn content_files_of_templates() {
    let entry = |file: bool, stem: &str| (file, Some(stem.to_string()));
    let entries =
        vec![entry(false, "Template"), (true, None), entry(true, "Other"), entry(true, "Template")];
    assert_eq!(find_template_content(&entries), Some(3));
    assert_eq!(find_template_content(&entries[..3].to_vec()), None);
    assert_eq!(extension_of("a.b/Template.Xml"), "Xml");
    assert_eq!(extension_of("Template"), "Template");
    assert_eq!(extension_of("a."), "");
    for ext in ["xml", "txt", "html", "htm", "json", "css", "js"] {
        assert!(has_text_extension(ext));
        assert!(!is_binary_template_content(&format!("T.{}", ext.to_uppercase())));
    }
    assert!(!has_text_extension("XML") && !has_text_extension(""));
    assert!(is_binary_template_content("T.bin") && is_binary_template_content("T"));
}

#[test]
fn compressed_modules() {
    let blob = zstd::encode_all("Строка 1\r\nСтрока 2\n\n3".as_bytes(), 3).unwrap();
    assert_eq!(
        decode_module_lines(&blob),
        Some(strings(&["Строка 1", "Строка 2", "", "3"]))
    );
    assert_eq!(decode_module_lines(b"no frame"), None);
    assert_eq!(decode_module_lines(&blob[..blob.len() - 3]), None);
    let bad = zstd::encode_all(&[0xffu8, 0xfe][..], 3).unwrap();
    assert_eq!(decode_module_lines(&bad), None);
    assert_eq!(lines_of_bytes(&vec![0xd0]), None);
    assert_eq!(lines_of_bytes(&vec![]), Some(vec![]));
    let file = Some("// а\r\nб\n".as_bytes().to_vec());
    assert_eq!(lines_of_file(&file), vec!["// а".to_string(), "б".to_string()]);
    assert!(lines_of_file(&Some(vec![0xd0])).is_empty());
    assert!(lines_of_file(&None).is_empty());
    assert_eq!(MAX_DECOMPRESSED, 256 * 1024 * 1024);
}

#[test]
fn outcome_of_bulk_work() {
    let ok: Result<(), &str> = Ok(());
    assert_eq!(bulk_outcome(Ok(1), ok, ok), Ok(1));
    assert_eq!(bulk_outcome::<u8, &str>(Err("work"), Err("rebuild"), Err("create")), Err("work"));
    assert_eq!(bulk_outcome(Ok(1), Err("rebuild"), Err("create")), Err("rebuild"));
    assert_eq!(bulk_outcome(Ok(1), ok, Err("create")), Err("create"));
}

#[test]
fn texts_as_json() {
    assert_eq!(texts_to_json(&strings(&["а", "б\""])).unwrap(), r#"["а","б\""]"#);
    assert_eq!(texts_to_json(&vec![]).unwrap(), "[]");
}
