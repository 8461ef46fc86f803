//! References of forms.

use bsl_extension::xml::error::{XmlError, XmlPart};
use bsl_extension::xml::file::{FileError, FormFile};
use bsl_extension::xml::form_refs::{
    inside, nearest_named, parent_is, parse_form_links, resolve_links, type_belongs_to_field,
    FormLink, OpenTag, RefCollector, RefStep,
};
use bsl_extension::xml::forms::{
    form_type_to_ref, parse_form_refs_file, parse_form_refs_xml, DataLinkEdge, FormField, FormRefs,
    FORM_LINK_KINDS,
};

const FORM: &str = r#"<?xml version="1.0" encoding="UTF-8"?>
<Form xmlns="http://v8.1c.ru/8.3/xcf/logform" xmlns:v8="http://v8.1c.ru/8.1/data/core" xmlns:xsi="http://www.w3.org/2001/XMLSchema-instance">
  <Attributes>
    <Attribute name="Объект" id="1">
      <Type><v8:Type>cfg:DocumentObject.Заказ</v8:Type></Type>
      <MainAttribute>true</MainAttribute>
    </Attribute>
    <Attribute name="Контрагент" id="2">
      <Type>
        <v8:Type>cfg:CatalogRef.Контрагенты</v8:Type>
        <v8:Type>cfg:CatalogRef.Организации</v8:Type>
      </Type>
    </Attribute>
    <Attribute name="Список" id="3">
      <Type><v8:Type>cfg:DynamicList</v8:Type></Type>
      <Settings xsi:type="DynamicList">
        <ManualQuery>true</ManualQuery>
        <QueryText>ВЫБРАТЬ
	Р.Ссылка КАК Ссылка
ИЗ
	Документ.Реализация КАК Р
	ЛЕВОЕ СОЕДИНЕНИЕ Справочник.Склады КАК С
	ПО Истина</QueryText>
        <Fields><Field><Type><v8:Type>cfg:CatalogRef.Пользователи</v8:Type></Type></Field></Fields>
        <MainTable>Document.Реализация</MainTable>
      </Settings>
    </Attribute>
    <Attribute name="Таблица" id="4">
      <Type><v8:Type>cfg:ValueTable</v8:Type></Type>
      <Columns>
        <Column name="Склад" id="5">
          <Type><v8:Type>cfg:CatalogRef.Склады</v8:Type></Type>
        </Column>
        <Column name="Сумма" id="6">
          <Type><v8:Type>xs:decimal</v8:Type></Type>
        </Column>
      </Columns>
    </Attribute>
  </Attributes>
  <Parameters>
    <Parameter name="Склад">
      <Type><v8:Type>cfg:CatalogRef.Склады</v8:Type></Type>
    </Parameter>
    <Parameter name="Флаг">
      <Type><v8:Type>xs:boolean</v8:Type></Type>
    </Parameter>
  </Parameters>
</Form>
"#;

/// Edges of the reference types of a field, as the application gives them.
fn edges_of(f: &FormField) -> Vec<DataLinkEdge> {
    let mut out = Vec::new();
    for t in &f.types {
        if let Some((head, name)) = t.strip_prefix("cfg:").and_then(|r| r.split_once('.')) {
            if let Some(kind) = head.strip_suffix("Ref") {
                out.push(DataLinkEdge {
                    from_path: f.from_path.clone(),
                    to_object: format!("{kind}.{name}"),
                    link_kind: f.kind,
                    is_composite: f.types.len() > 1,
                    is_universal: false,
                });
            }
        }
    }
    out
}

/// Full name of an object in English, as the application gives it.
fn object_of(table: &String) -> String {
    table.replace("Документ.", "Document.")
}

/// Objects that a query reads: full name, table part, line in the file.
fn query_usages(text: &str, first_line: usize) -> Vec<(String, Option<String>, usize)> {
    let mut out = Vec::new();
    for (i, line) in text.split('\n').enumerate() {
        for word in line.split_whitespace() {
            let names: Vec<&str> = word.split('.').collect();
            let kind = match names[0] {
                "Документ" => "Document",
                "Справочник" => "Catalog",
                _ => continue,
            };
            let object = format!("{}.{}", kind, names[1]);
            out.push((object, names.get(2).map(|s| s.to_string()), first_line + i));
        }
    }
    out
}

fn refs_of(content: &str) -> Result<FormRefs, XmlError> {
    parse_form_refs_xml(content, &edges_of, &object_of)
}

fn edge_tuples(r: &FormRefs) -> Vec<(String, String, &'static str, bool)> {
    r.edges
        .iter()
        .map(|e| (e.from_path.clone(), e.to_object.clone(), e.link_kind, e.is_composite))
        .collect()
}

#[test]
fn form_attribute_types_become_edges() {
    let r = refs_of(FORM).unwrap();
    let edges = edge_tuples(&r);
    assert!(edges.contains(&("Объект".into(), "Document.Заказ".into(), "form_attr", false)), "{edges:?}");
    assert!(edges.contains(&("Контрагент".into(), "Catalog.Контрагенты".into(), "form_attr", true)));
    assert!(edges.contains(&("Контрагент".into(), "Catalog.Организации".into(), "form_attr", true)));
    assert!(edges.contains(&("Таблица.Склад".into(), "Catalog.Склады".into(), "form_attr", false)));
    assert!(!edges.iter().any(|(p, _, _, _)| p == "Таблица.Сумма"));
    assert!(edges.contains(&("Склад".into(), "Catalog.Склады".into(), "form_param", false)));
    assert!(!edges.iter().any(|(p, _, _, _)| p == "Флаг"));
}

#[test]
fn dynamic_list_main_table_and_query() {
    let r = refs_of(FORM).unwrap();
    let edges = edge_tuples(&r);
    assert!(edges.contains(&("Список".into(), "Document.Реализация".into(), "form_main_table", false)), "{edges:?}");
    assert!(!edges.iter().any(|(_, t, _, _)| t == "Catalog.Пользователи"));
    assert!(!edges.iter().any(|(_, t, _, _)| t.contains("DynamicList")));

    assert_eq!(r.queries.len(), 1);
    let (line, text) = &r.queries[0];
    assert_eq!(*line, 18, "строка открывающего тега <QueryText>");
    assert!(text.starts_with("ВЫБРАТЬ"));
    assert!(text.contains("Справочник.Склады"));
    // The document stands on the fourth line of the text.
    let usages = query_usages(text, *line);
    let real = usages.iter().find(|u| u.0 == "Document.Реализация").unwrap();
    assert_eq!(real.2, 21);
}

#[test]
fn form_type_suffixes_normalized() {
    assert_eq!(form_type_to_ref("cfg:DocumentObject.Заказ"), "cfg:DocumentRef.Заказ");
    assert_eq!(
        form_type_to_ref("cfg:InformationRegisterRecordSet.Курсы"),
        "cfg:InformationRegisterRef.Курсы"
    );
    assert_eq!(form_type_to_ref("cfg:CatalogRef.Склады"), "cfg:CatalogRef.Склады");
    assert_eq!(form_type_to_ref("cfg:DynamicList"), "cfg:DynamicList");
    assert_eq!(form_type_to_ref("xs:string"), "xs:string");
}

#[test]
fn form_without_refs_is_empty() {
    let r = refs_of(
        "<Form><Events><Event name=\"OnOpen\">ПриОткрытии</Event></Events></Form>",
    )
    .unwrap();
    assert!(r.edges.is_empty());
    assert!(r.queries.is_empty());
    let p = std::path::Path::new("/non/existent.xml");
    let file = if p.is_file() { FormFile::Unreadable } else { FormFile::Missing };
    assert!(parse_form_refs_file(&file, &edges_of, &object_of).unwrap().edges.is_empty());
    assert_eq!(FormRefs::default(), parse_form_refs_file(&file, &edges_of, &object_of).unwrap());
}

#[test]
fn reference_types_are_stable() {
    for t in [
        " cfg:DocumentObject.A ",
        "cfg:AccumulationRegisterRecordKey.A.B",
        "cfg:InformationRegisterRecordManager.A",
        "cfg:CatalogSelection.A",
        "cfg:CatalogManager.",
        "cfg:RecordSet.A",
        "cfg:Object",
        "",
        "  ",
    ] {
        let once = form_type_to_ref(t);
        assert_eq!(form_type_to_ref(&once), once);
    }
    assert_eq!(form_type_to_ref(" cfg:DocumentObject.A "), "cfg:DocumentRef.A");
    assert_eq!(form_type_to_ref("cfg:CatalogManager."), "cfg:CatalogRef.");
    assert_eq!(form_type_to_ref("cfg:RecordSet.A"), "cfg:RecordSet.A");
    assert_eq!(form_type_to_ref("cfg:AbcRecord.A.B"), "cfg:AbcRef.A.B");
    assert_eq!(form_type_to_ref("cfg:AbcList.A"), "cfg:AbcRef.A");
    assert_eq!(form_type_to_ref("DocumentObject.A"), "DocumentObject.A");
    assert_eq!(FORM_LINK_KINDS, ["form_attr", "form_param", "form_main_table"]);
}

#[test]
fn links_come_in_the_order_of_the_form() {
    let xml = "<F><Attributes><Attribute name='А' name='Я'><Type>cfg:X</Type>\
               <Columns><Column name='К'><Type>y</Type></Column></Columns>\
               <Settings><MainTable> Документ.Д </MainTable><MainTable>Д</MainTable></Settings>\
               </Attribute></Attributes><Attribute name='Вне'><Type>z</Type></Attribute></F>";
    let (links, queries) = parse_form_links(xml).unwrap();
    assert!(queries.is_empty());
    assert_eq!(links.len(), 4);
    match &links[0] {
        FormLink::Field(f) => {
            assert_eq!((f.from_path.as_str(), f.kind), ("А.К", "form_attr"));
            assert_eq!(f.types, vec!["y"]);
        }
        _ => panic!("a field is expected"),
    }
    assert!(matches!(&links[1], FormLink::MainTable(a, t) if a == "А" && t == "Документ.Д"));
    assert!(matches!(&links[2], FormLink::MainTable(a, t) if a == "А" && t == "Д"));
    assert!(matches!(&links[3], FormLink::Field(f) if f.from_path == "А" && f.types == ["cfg:X"]));
    // A table without a full name gives no edge.
    let edges = resolve_links(&links, &edges_of, &object_of);
    assert_eq!(edges.len(), 1);
    assert_eq!(edges[0].to_object, "Document.Д");
}

#[test]
fn settings_of_a_list_have_no_fields() {
    let xml = "<F><Attributes><Attribute name='А'><Settings>\
               <Parameters><Parameter name='П'><Type>cfg:CatalogRef.К</Type></Parameter></Parameters>\
               <Columns><Column name='К'><Type>cfg:CatalogRef.К</Type></Column></Columns>\
               </Settings></Attribute></Attributes></F>";
    assert!(refs_of(xml).unwrap().edges.is_empty());
}

#[test]
fn queries_of_one_line_stay_apart() {
    let xml = "<F><Settings><QueryText>a<![CDATA[b]]></QueryText><QueryText>c</QueryText></Settings></F>";
    let want = vec![(1, "ab".to_string()), (1, "c".to_string())];
    assert_eq!(refs_of(xml).unwrap().queries, want);
}

#[test]
fn form_refs_that_are_no_xml() {
    let e = refs_of("<a></b>").unwrap_err();
    assert_eq!(e.part, XmlPart::FormRefs);
    assert!(e.message().starts_with("Form XML: ошибка парсинга ссылок на позиции "));
    let file = FormFile::Bytes(b"<a></b>".to_vec());
    assert_eq!(parse_form_refs_file(&file, &edges_of, &object_of), Err(FileError::Xml(e)));
    for file in [FormFile::Unreadable, FormFile::Bytes(vec![0xff])] {
        let r = parse_form_refs_file(&file, &edges_of, &object_of);
        assert_eq!(r, Err(FileError::Unreadable));
    }
}

fn open(tag: &str, name: Option<&str>, is_field: bool) -> OpenTag {
    OpenTag { tag: tag.to_string(), name: name.map(|s| s.to_string()), is_field }
}

#[test]
fn open_elements() {
    let stack = vec![
        open("Attribute", Some("А"), true),
        open("Attribute", Some(""), false),
        open("Type", None, false),
    ];
    assert!(parent_is(&stack, "Type") && !parent_is(&stack, "Attribute"));
    assert!(inside(&stack, "Attribute") && !inside(&stack, "Settings"));
    assert_eq!(nearest_named(&stack, "Attribute"), Some("А".to_string()));
    assert_eq!(nearest_named(&stack, "Type"), None);
    assert!(!type_belongs_to_field(&stack));
    let stack = vec![open("Attribute", None, true), open("Type", None, false)];
    assert!(type_belongs_to_field(&stack));
    assert!(!type_belongs_to_field(&vec![open("Attribute", None, true)]));
    assert!(!parent_is(&vec![], "Type") && !type_belongs_to_field(&vec![]));
}

#[test]
fn ref_collector_step_by_step() {
    let mut c = RefCollector::new();
    let tag = |s: &str| RefStep::Open(s.to_string(), None, 1);
    c.step(RefStep::Close);
    c.step(tag("Parameters"));
    c.step(RefStep::Open("Parameter".to_string(), Some("П".to_string()), 1));
    c.step(tag("Type"));
    c.step(RefStep::Text(" cfg:CatalogObject.К ".to_string()));
    c.step(RefStep::Text("  ".to_string()));
    c.step(RefStep::Close);
    c.step(RefStep::Close);
    c.step(tag("Settings"));
    assert!(c.opens_query("QueryText"));
    c.step(RefStep::Open("QueryText".to_string(), None, 5));
    c.step(RefStep::Text("a".to_string()));
    c.step(RefStep::Skip);
    c.step(RefStep::Text("b".to_string()));
    c.step(RefStep::Close);
    c.step(RefStep::Text("c".to_string()));
    assert_eq!(c.queries, vec![(5, "ab".to_string())]);
    assert_eq!(c.line, None);
    assert_eq!(c.stack.len(), 2);
    assert!(c.fields.is_empty());
    assert_eq!(c.links.len(), 1);
    assert!(matches!(
        &c.links[0],
        FormLink::Field(f) if f.kind == "form_param" && f.types == ["cfg:CatalogRef.К"]
    ));
}
