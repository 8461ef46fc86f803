//! Queries of data composition schemas.

use bsl_extension::index_extras::contents::is_dcs_head;
use bsl_extension::xml::dcs::{
    is_dcs_template, parse_dcs_queries, push_text, QueryCollector, QueryStep,
};
use bsl_extension::xml::error::{decimal, XmlError, XmlPart};
use bsl_extension::xml::reader::strip_prefix;

const DCS: &str = r#"<?xml version="1.0" encoding="UTF-8"?>
<DataCompositionSchema xmlns="http://v8.1c.ru/8.1/data-composition-system/schema" xmlns:xsi="http://www.w3.org/2001/XMLSchema-instance">
	<dataSource>
		<name>ИсточникДанных</name>
	</dataSource>
	<dataSet xsi:type="DataSetQuery">
		<name>Основной</name>
		<query>ВЫБРАТЬ
	З.Ссылка КАК Ссылка
ИЗ
	Документ.Заказ КАК З</query>
	</dataSet>
	<dataSet xsi:type="DataSetUnion">
		<name>Объединение</name>
		<item xsi:type="DataSetQuery">
			<query>
ВЫБРАТЬ Т.Номенклатура ИЗ Документ.Реализация.Товары КАК Т
ГДЕ Т.Количество &gt; 0</query>
		</item>
	</dataSet>
</DataCompositionSchema>
"#;

/// Objects that a query reads: full name, table part, line in the file.
fn query_usages(text: &str, first_line: usize) -> Vec<(String, Option<String>, usize)> {
    let mut out = Vec::new();
    for (i, line) in text.split('\n').enumerate() {
        for word in line.split_whitespace() {
            let names: Vec<&str> = word.split('.').collect();
            let kind = match names[0] {
                "Документ" => "Document",
                "Справочник" => "Catalog",
                _ => continue,
            };
            let object = format!("{}.{}", kind, names[1]);
            out.push((object, names.get(2).map(|s| s.to_string()), first_line + i));
        }
    }
    out
}

#[test]
fn extracts_all_queries_with_lines() {
    let q = parse_dcs_queries(DCS).unwrap();
    assert_eq!(q.len(), 2);
    assert_eq!(q[0].0, 8, "строка открывающего <query> первого набора");
    assert!(q[0].1.starts_with("ВЫБРАТЬ"));
    assert!(q[0].1.contains("Документ.Заказ"));
    assert_eq!(q[1].0, 16);
    assert!(q[1].1.starts_with('\n'));
    assert!(q[1].1.contains("> 0"));
}

#[test]
fn lines_inside_query_text_follow_file() {
    let q = parse_dcs_queries(DCS).unwrap();
    let usages = query_usages(&q[1].1, q[1].0);
    assert_eq!(usages.len(), 1);
    assert_eq!(usages[0].0, "Document.Реализация");
    assert_eq!(usages[0].1.as_deref(), Some("Товары"));
    // The path stands on the second line of the text.
    assert_eq!(usages[0].2, 17);
}

#[test]
fn head_check_distinguishes_dcs_from_spreadsheet() {
    assert!(is_dcs_template(
        "<?xml version=\"1.0\"?>\n<DataCompositionSchema xmlns=\"http://v8.1c.ru/8.1/data-composition-system/schema\">"
    ));
    assert!(!is_dcs_template(
        "<?xml version=\"1.0\"?>\n<Template xmlns=\"http://v8.1c.ru/8.2/data/spreadsheet\">"
    ));
}

#[test]
fn schema_without_queries_is_empty() {
    let q = parse_dcs_queries("<DataCompositionSchema><dataSet xsi:type=\"DataSetObject\"><name>Н</name><objectName>Т</objectName></dataSet></DataCompositionSchema>").unwrap();
    assert!(q.is_empty());
}

#[test]
fn pieces_of_a_query_make_one_text() {
    let q = parse_dcs_queries("<a>\n<x:query>A &amp; <![CDATA[<B>]]> &lt;<i>in</i>C</x:query></a>");
    assert_eq!(q.unwrap(), vec![(2, "A & <B> <inC".to_string())]);
    // What cannot be unescaped is left out.
    let q = parse_dcs_queries("<query>&none;<![CDATA[rest]]></query>").unwrap();
    assert_eq!(q, vec![(1, "rest".to_string())]);
}

#[test]
fn nested_elements_do_not_close_a_query() {
    let q = parse_dcs_queries("<r><query>a<query>b</query>c</query>d\n<query>e</query></r>").unwrap();
    assert_eq!(q, vec![(1, "abc".to_string()), (2, "e".to_string())]);
    // Queries of one line are queries of their own.
    let q = parse_dcs_queries("<s><query>A</query><query>B<![CDATA[C]]></query></s>").unwrap();
    assert_eq!(q, vec![(1, "A".to_string()), (1, "BC".to_string())]);
    // An empty element has no text.
    assert!(parse_dcs_queries("<r><query/></r>").unwrap().is_empty());
    assert!(parse_dcs_queries("").unwrap().is_empty());
}

#[test]
fn lines_behind_a_byte_order_mark() {
    let q = parse_dcs_queries("\u{feff}<a>\n<query\n>x</query></a>").unwrap();
    assert_eq!(q, vec![(3, "x".to_string())]);
    assert_eq!(parse_dcs_queries("<a>\n<query\n>x</query></a>").unwrap(), q);
}

#[test]
fn text_that_is_no_schema() {
    let e = parse_dcs_queries("<a></b>").unwrap_err();
    assert_eq!(e.part, XmlPart::Schema);
    let begin = format!("DataCompositionSchema: ошибка парсинга на позиции {}: ", e.position);
    assert_eq!(e.message(), format!("{begin}{}", e.detail));
    assert!(!e.detail.is_empty());
    assert!(parse_dcs_queries("<a").is_err());
}

#[test]
fn messages_of_failures() {
    let mut e = XmlError { part: XmlPart::FormHandlers, position: 0, detail: "x".to_string() };
    assert_eq!(e.message(), "Form XML: ошибка парсинга на позиции 0: x");
    e.part = XmlPart::FormRefs;
    e.position = 1230;
    assert_eq!(e.message(), "Form XML: ошибка парсинга ссылок на позиции 1230: x");
    for n in [0, 9, 10, 99, 1000, u64::MAX] {
        assert_eq!(decimal(n), n.to_string());
    }
}

#[test]
fn collector_step_by_step() {
    let mut c = QueryCollector::new();
    c.step(QueryStep::Text("outside".to_string()));
    c.step(QueryStep::Open("item".to_string(), 1));
    assert!(c.opens("query"));
    c.step(QueryStep::Open("query".to_string(), 3));
    assert!(!c.opens("query"));
    c.step(QueryStep::Open("b".to_string(), 4));
    c.step(QueryStep::Text("x".to_string()));
    c.step(QueryStep::Close);
    c.step(QueryStep::Skip);
    c.step(QueryStep::Text("y".to_string()));
    c.step(QueryStep::Close);
    c.step(QueryStep::Text("outside".to_string()));
    c.step(QueryStep::Close);
    assert_eq!(c.out, vec![(3, "xy".to_string())]);
    assert_eq!((c.line, c.depth), (None, 0));
    let mut out = Vec::new();
    push_text(&mut out, false, 1, "a");
    push_text(&mut out, true, 1, "b");
    push_text(&mut out, false, 1, "c");
    push_text(&mut out, false, 2, "d");
    let want = vec![(1, "ab".to_string()), (1, "c".to_string()), (2, "d".to_string())];
    assert_eq!(out, want);
}

#[test]
fn head_of_a_file_may_break_a_character() {
    let head = "<DataCompositionSchema>Ж".as_bytes();
    assert!(is_dcs_head(head));
    assert!(is_dcs_head(&head[..head.len() - 1]));
    assert!(!is_dcs_head(b"\xff\xfe<Data"));
    assert!(!is_dcs_head(b""));
}

#[test]
fn names_without_namespaces() {
    assert_eq!(strip_prefix("v8:Type"), "Type");
    assert_eq!(strip_prefix("a:b:c"), "b:c");
    assert_eq!(strip_prefix("Type"), "Type");
    assert_eq!(strip_prefix(":"), "");
}
