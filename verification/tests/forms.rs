//! Event handlers of forms.

use bsl_extension::xml::error::XmlPart;
use bsl_extension::xml::file::{FileError, FormFile};
use bsl_extension::xml::forms::{
    form_event_to_russian, handlers_to_json, parse_form_file, parse_form_xml, FormHandler, FormStep,
    HandlerCollector,
};

const SAMPLE: &str = r#"<?xml version="1.0" encoding="UTF-8"?>
<Form>
  <Properties>
    <Title><v8:item lang="ru"><v8:content>Форма документа</v8:content></v8:item></Title>
  </Properties>
  <Events>
    <Event name="ПриОткрытии">ПриОткрытии</Event>
    <Event name="ПередЗакрытием">ПередЗакрытиемОбработчик</Event>
    <Event name="ПриСозданииНаСервере">ПриСозданииНаСервере</Event>
  </Events>
</Form>
"#;

#[test]
fn parses_three_handlers() {
    let handlers = parse_form_xml(SAMPLE).unwrap();
    assert_eq!(handlers.len(), 3);
}

#[test]
fn handler_with_renamed_proc() {
    let handlers = parse_form_xml(SAMPLE).unwrap();
    let renamed = handlers
        .iter()
        .find(|h| h.event == "ПередЗакрытием")
        .unwrap();
    assert_eq!(renamed.handler, "ПередЗакрытиемОбработчик");
}

#[test]
fn ignores_text_outside_event_tag() {
    let handlers = parse_form_xml(SAMPLE).unwrap();
    assert!(!handlers.iter().any(|h| h.handler.contains("Форма")));
}

#[test]
fn handler_of_form_element_keeps_owner() {
    let xml = r#"<?xml version="1.0"?>
<Form>
  <Events>
    <Event name="OnOpen">ПриОткрытии</Event>
  </Events>
  <ChildItems>
    <Page name="ГруппаТовары" id="18">
      <ChildItems>
        <InputField name="СуммаДокумента" id="1312">
          <ContextMenu name="СуммаДокументаКонтекстноеМеню" id="1313"/>
          <Events>
            <Event name="OnChange">СуммаДокументаПриИзменении</Event>
          </Events>
        </InputField>
      </ChildItems>
    </Page>
  </ChildItems>
</Form>
"#;
    let handlers = parse_form_xml(xml).unwrap();
    assert_eq!(handlers.len(), 2);
    let form_level = handlers.iter().find(|h| h.event == "ПриОткрытии").unwrap();
    assert_eq!(form_level.element, None);
    let field = handlers.iter().find(|h| h.event == "ПриИзменении").unwrap();
    assert_eq!(field.element.as_deref(), Some("СуммаДокумента"));
}

#[test]
fn form_events_translated_in_both_dump_formats() {
    let xml = r#"<?xml version="1.0"?>
<Form>
  <Events>
    <Event name="OnCreateAtServer">ПриСозданииНаСервере</Event>
    <Event name="БезымянноеСобытие">Обработчик</Event>
  </Events>
</Form>
"#;
    let handlers = parse_form_xml(xml).unwrap();
    assert!(handlers.iter().any(|h| h.event == "ПриСозданииНаСервере"));
    assert!(handlers.iter().any(|h| h.event == "БезымянноеСобытие"));
    assert_eq!(
        form_event_to_russian("9cc34712-da5f-4faa-a653-343d2085fbe8"),
        "9cc34712-da5f-4faa-a653-343d2085fbe8"
    );
    assert_eq!(
        form_event_to_russian("EditTextChange"),
        "ИзменениеТекстаРедактирования"
    );
    assert_eq!(
        form_event_to_russian("AdditionalDetailProcessing"),
        "ОбработкаДополнительнойРасшифровки"
    );
    assert_eq!(form_event_to_russian("Tuning"), "Регулирование");
}

#[test]
fn handlers_json_omits_element_for_form_level() {
    let handlers = vec![
        FormHandler {
            event: "OnOpen".into(),
            handler: "ПриОткрытии".into(),
            element: None,
        },
        FormHandler {
            event: "OnChange".into(),
            handler: "СуммаПриИзменении".into(),
            element: Some("Сумма".into()),
        },
    ];
    let json = handlers_to_json(&handlers).unwrap();
    let parsed: Vec<serde_json::Value> = serde_json::from_str(&json).unwrap();
    assert!(parsed[0].get("element").is_none());
    assert_eq!(parsed[1]["element"], "Сумма");
}

#[test]
fn empty_events_block_yields_empty_vec() {
    let xml = r#"<?xml version="1.0"?>
<Form>
  <Events />
</Form>
"#;
    assert!(parse_form_xml(xml).unwrap().is_empty());
}

#[test]
fn returns_empty_for_missing_file() {
    let p = std::path::Path::new("/non/existent.xml");
    let file = if p.is_file() { FormFile::Unreadable } else { FormFile::Missing };
    assert!(parse_form_file(&file).unwrap().is_empty());
}

#[test]
fn file_reads_like_its_content() {
    let file = FormFile::Bytes(SAMPLE.as_bytes().to_vec());
    assert_eq!(parse_form_file(&file).unwrap(), parse_form_xml(SAMPLE).unwrap());
    assert!(!parse_form_file(&file).unwrap().is_empty());
    let broken = parse_form_xml("<a></b>").unwrap_err();
    let file = FormFile::Bytes(b"<a></b>".to_vec());
    assert_eq!(parse_form_file(&file), Err(FileError::Xml(broken)));
}

#[test]
fn file_that_cannot_be_read_is_an_error() {
    assert_eq!(parse_form_file(&FormFile::Unreadable), Err(FileError::Unreadable));
    let file = FormFile::Bytes(vec![b'<', 0xd0, b'>']);
    assert_eq!(parse_form_file(&file), Err(FileError::Unreadable));
}

fn handler(event: &str, handler: &str, element: Option<&str>) -> FormHandler {
    FormHandler {
        event: event.to_string(),
        handler: handler.to_string(),
        element: element.map(|s| s.to_string()),
    }
}

#[test]
fn attributes_and_texts_of_events() {
    // The last of several names counts, values are unescaped, texts are trimmed.
    let h = parse_form_xml("<F><Event name='A' x:name='B&amp;C'>  П  </Event></F>").unwrap();
    assert_eq!(h, vec![handler("B&C", "П", None)]);
    // Without a name, with an empty name or without a text there is no handler.
    for xml in [
        "<F><Event>П</Event></F>",
        "<F><Event name=''>П</Event></F>",
        "<F><Event name='A'>  </Event></F>",
        "<F><Event name='A'/></F>",
        "<F name='A'>П</F>",
        "<F><Event name='A'><b>П</b></Event></F>",
    ] {
        assert!(parse_form_xml(xml).unwrap().is_empty(), "{xml}");
    }
}

#[test]
fn owner_is_the_nearest_named_element() {
    let xml = "<F name='Form'><G name='Г'><H name=''><Event name='Click'>А</Event></H></G>\
               <Event name='Click'>Б</Event></F><K><Event name='Click'>В</Event></K>";
    assert_eq!(
        parse_form_xml(xml).unwrap(),
        vec![
            handler("Нажатие", "А", Some("Г")),
            handler("Нажатие", "Б", Some("Form")),
            handler("Нажатие", "В", None),
        ]
    );
}

#[test]
fn form_that_is_no_xml() {
    let e = parse_form_xml("<a></b>").unwrap_err();
    assert_eq!(e.part, XmlPart::FormHandlers);
    assert!(e.message().starts_with("Form XML: ошибка парсинга на позиции "));
}

#[test]
fn handler_collector_step_by_step() {
    let mut c = HandlerCollector::new();
    c.step(FormStep::Close("Event".to_string()));
    c.step(FormStep::Open("Field".to_string(), Some("Поле".to_string())));
    c.step(FormStep::Text("outside".to_string()));
    c.step(FormStep::Open("Event".to_string(), Some("OnChange".to_string())));
    assert_eq!(c.owner(), Some("Поле".to_string()));
    c.step(FormStep::Text(" П ".to_string()));
    c.step(FormStep::Skip);
    c.step(FormStep::Close("Event".to_string()));
    assert_eq!(c.event, None);
    assert_eq!(c.tags, vec!["Field"]);
    assert_eq!(c.owners, vec![Some("Поле".to_string())]);
    c.step(FormStep::Close("Field".to_string()));
    assert_eq!(c.owner(), None);
    assert_eq!(c.out, vec![handler("ПриИзменении", "П", Some("Поле"))]);
}

#[test]
fn translation_is_stable() {
    for name in ["OnOpen", "BeforePrint", "CommandGenerateProcessing", "ПриОткрытии", "Xyz", ""] {
        let once = form_event_to_russian(name);
        assert_eq!(form_event_to_russian(once), once);
    }
    assert_eq!(form_event_to_russian("BeforePrint"), "ПередПечатью");
    assert_eq!(form_event_to_russian("Creating"), "Создание");
    assert_eq!(form_event_to_russian("Xyz"), "Xyz");
}

#[test]
fn handlers_as_text() {
    let list = vec![handler("а", "б\"", None), handler("в", "г", Some("д"))];
    assert_eq!(
        handlers_to_json(&list).unwrap(),
        r#"[{"event":"а","handler":"б\""},{"element":"д","event":"в","handler":"г"}]"#
    );
    assert_eq!(handlers_to_json(&[]).unwrap(), "[]");
}
