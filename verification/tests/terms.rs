//! Words of identifiers, comments and terms.

use bsl_extension::terms::comment::{
    comment_bodies, describe, header_comment, is_module_level, parse_meta_tag, split_tag, split_values,
    BodyLine, MetaBlock,
};
use bsl_extension::terms::owner::{forward_slashes, split_path};
use bsl_extension::terms::phrases::{add_phrase, join_phrases};
use bsl_extension::terms::{
    build_terms, cut_chars, extract_leading_comment, extract_module_header, fold_text, fold_yo,
    head_line, is_cyr, object_from_module_path, split_identifier, split_letters, LeadingComment,
    Letter, ModuleHeader, HEADER_PROSE_LIMIT_CHARS, HEAD_LIMIT_CHARS, MECH_SIGNATURE,
    PROSE_LIMIT_CHARS,
};

#[test]
fn split_camel_cyrillic() {
    assert_eq!(
        split_identifier("УточнитьДанныеПоШтрихкоду"),
        vec!["уточнить", "данные", "по", "штрихкоду"]
    );
}

#[test]
fn yo_folds_to_e_everywhere() {
    assert_eq!(split_identifier("РасчётСебестоимости"), vec!["расчет", "себестоимости"]);
    assert_eq!(fold_text("Учёт партий"), "учет партий");
}

#[test]
fn split_latin_and_underscores() {
    assert_eq!(split_identifier("RefineBarcode"), vec!["refine", "barcode"]);
    assert_eq!(
        split_identifier("ent_ДоработкаОбмена"),
        vec!["ent", "доработка", "обмена"]
    );
}

#[test]
fn split_acronym_and_digits() {
    assert_eq!(split_identifier("XMLReader"), vec!["xml", "reader"]);
    assert_eq!(
        split_identifier("ПолучитьHTTPОтвет"),
        vec!["получить", "http", "ответ"]
    );
    assert_eq!(split_identifier("Форма2Элемент"), vec!["форма", "2", "элемент"]);
}

#[test]
fn object_from_paths() {
    assert_eq!(
        object_from_module_path("Catalogs/Номенклатура/Ext/ObjectModule.bsl"),
        Some(("Catalog", "Номенклатура".to_string()))
    );
    assert_eq!(
        object_from_module_path(
            "Documents/Реализация/Forms/ФормаДокумента/Ext/Form/Module.bsl"
        ),
        Some(("Document", "Реализация".to_string()))
    );
    assert_eq!(
        object_from_module_path("base/CommonModules/РаботаСоСкидками/Ext/Module.bsl"),
        Some(("CommonModule", "РаботаСоСкидками".to_string()))
    );
    assert_eq!(object_from_module_path("Configuration/ManagedApplicationModule.bsl"), None);
}

#[test]
fn comment_extraction() {
    let lines = vec![
        "////////////////////////////////",
        "// Уточняет данные по штрихкоду.",
        "// Параметры: Штрихкод - Строка.",
        "&НаСервере",
        "Процедура УточнитьДанные()",
    ];
    let c = extract_leading_comment(&lines, 5).expect("комментарий есть");
    assert_eq!(c.prose, "Уточняет данные по штрихкоду. Параметры: Штрихкод - Строка.");
    assert_eq!(c.head, "Уточняет данные по штрихкоду.");
    assert!(c.tags.is_empty());
    assert_eq!(c.len_chars, c.prose.chars().count());
    assert!(extract_leading_comment(&lines, 1).is_none());
}

#[test]
fn comment_stops_at_code() {
    let lines = vec![
        "КонецПроцедуры",
        "",
        "Процедура Другая()",
    ];
    assert!(extract_leading_comment(&lines, 3).is_none());
}

#[test]
fn meta_tags_survive_prose_limit() {
    let long = "Читает настройки подключения к службе весов из безопасного хранилища БСП.";
    let lines = vec![
        format!("// {}", long),
        format!("// {}", long),
        format!("// {}", long),
        format!("// {}", long),
        "//".to_string(),
        "// @tags Весы, Настройки".to_string(),
        "// @depends РегистрСведений.БезопасноеХранилищеДанных; ОбщегоНазначения".to_string(),
        "// @security читает адрес/порт локальной службы".to_string(),
        "Функция ПрочитатьНастройки() Экспорт".to_string(),
    ];
    let c = extract_leading_comment(&lines, 9).expect("комментарий есть");
    assert_eq!(c.tags, vec!["весы", "настройки"]);
    assert_eq!(
        c.depends,
        vec!["регистрсведений.безопасноехранилищеданных", "общегоназначения"]
    );
    assert!(c.prose.chars().count() <= PROSE_LIMIT_CHARS);
    assert!(!c.prose.contains('@'));
    assert!(!c.prose.contains("security"));
    assert!(c.len_chars > PROSE_LIMIT_CHARS);
    assert_eq!(c.head, long);
    let terms = build_terms("ПрочитатьНастройки", None, None, Some(&c), &[]);
    assert!(terms.starts_with("весы, настройки, прочитать настройки"));
    assert!(!terms.contains("security"));
    assert!(!terms.contains("адрес/порт"));
}

#[test]
fn comment_of_tags_only_has_empty_prose() {
    let lines = vec!["// @tags Весы", "Процедура П()"];
    let c = extract_leading_comment(&lines, 2).expect("комментарий есть");
    assert!(c.prose.is_empty());
    assert!(c.head.is_empty());
    assert_eq!(c.tags, vec!["весы"]);
    assert!(c.len_chars > 0, "описание из одних тегов — тоже описание");
}

#[test]
fn tags_fold_case_and_yo() {
    let lines = vec!["// @tags Расчёт Себестоимости, ВЕСЫ", "Процедура П()"];
    let c = extract_leading_comment(&lines, 2).expect("комментарий есть");
    assert_eq!(c.tags, vec!["расчет себестоимости", "весы"]);
    assert_eq!(c.tags_line(), "расчет себестоимости, весы");
}

#[test]
fn module_header_of_ka_sample() {
    let lines = vec![
        "\u{feff}////////////////////////////////////////////////////////",
        "// Общий модуль «КРБ_ИнтеграцияВесов» (флаг: Сервер).",
        "//",
        "// Читает настройки подключения к службе весов из хранилища БСП.",
        "//",
        "// @layer infra",
        "// @tags весы, служба, настройки, интеграция",
        "////////////////////////////////////////////////////////",
        "",
        "#Область ПрограммныйИнтерфейс",
    ];
    let h = extract_module_header(&lines).expect("шапка есть");
    assert_eq!(h.tags, vec!["весы", "служба", "настройки", "интеграция"]);
    assert_eq!(h.head(), "Общий модуль «КРБ_ИнтеграцияВесов» (флаг: Сервер).");
    assert!(h.prose.contains("Читает настройки"));
    assert!(!h.prose.contains("@layer"));
    assert!(!h.prose.contains("infra"));
}

#[test]
fn module_header_absent_cases() {
    assert!(extract_module_header(&["#Область ПрограммныйИнтерфейс", "Процедура П()"]).is_none());
    assert!(extract_module_header(&["// Делает что-то.", "Процедура П() Экспорт"]).is_none());
    assert!(extract_module_header(&["// Делает что-то.", "&НаСервере", "Процедура П()"]).is_none());
    assert!(extract_module_header(&["\u{feff}"]).is_none());
    let empty: [&str; 0] = [];
    assert!(extract_module_header(&empty).is_none());
}

#[test]
fn module_header_before_blank_line_and_procedure() {
    let lines = vec![
        "// Модуль обмена с весами.",
        "// @tags весы",
        "",
        "Процедура Обменять() Экспорт",
    ];
    let h = extract_module_header(&lines).expect("шапка есть");
    assert_eq!(h.prose, "Модуль обмена с весами.");
    assert_eq!(h.tags, vec!["весы"]);
    let h2 = extract_module_header(&["// Только шапка."]).expect("шапка есть");
    assert_eq!(h2.prose, "Только шапка.");
    let h3 = extract_module_header(&["// Шапка.", "Перем Кэш;"]).expect("шапка есть");
    assert_eq!(h3.prose, "Шапка.");
}

#[test]
fn build_terms_full_and_dedup() {
    let lines = vec!["// Уточняет штрихкод товара", "Процедура П()"];
    let c = extract_leading_comment(&lines, 2);
    let t = build_terms(
        "УточнитьШтрихкод",
        Some("Номенклатура"),
        Some("Номенклатура"),
        c.as_ref(),
        &[],
    );
    assert_eq!(t, "уточнить штрихкод, номенклатура, уточняет штрихкод товара");

    let t2 = build_terms("RefineBarcode", None, None, None, &[]);
    assert_eq!(t2, "refine barcode");
}

#[test]
fn build_terms_order_with_module_tags() {
    let lines = vec!["// @tags весы", "// Читает настройки.", "Процедура П()"];
    let c = extract_leading_comment(&lines, 3).expect("комментарий есть");
    let module_tags = vec!["весы".to_string(), "служба".to_string()];
    let t = build_terms(
        "ПрочитатьНастройки",
        Some("КРБ_ИнтеграцияВесов"),
        None,
        Some(&c),
        &module_tags,
    );
    assert_eq!(
        t,
        "весы, прочитать настройки, крб интеграция весов, читает настройки., служба"
    );
}

fn letter(symbol: char, alphabetic: bool, uppercase: bool, lowered: char) -> Letter {
    Letter {
        symbol,
        alphanumeric: true,
        alphabetic,
        uppercase,
        lowercase: alphabetic && !uppercase,
        lowered: vec![lowered],
    }
}

#[test]
fn classified_letters_make_words() {
    let v = vec![
        letter('Ё', true, true, 'ё'),
        letter('ж', true, false, 'ж'),
        letter('7', false, false, '7'),
        letter('A', true, true, 'a'),
        letter('B', true, true, 'b'),
        letter('c', true, false, 'c'),
    ];
    assert_eq!(split_letters(&v), vec!["еж", "7", "a", "bc"]);
    let none: Vec<Letter> = vec![];
    assert!(split_letters(&none).is_empty());
}

#[test]
fn words_keep_all_letters_and_digits() {
    for s in ["", "__", "aB_cD1", "ПолучитьHTTPОтвет2Раза", "Ёлка-Иголка", "İx"] {
        let joined: String = split_identifier(s).concat();
        let direct: String = s
            .chars()
            .filter(|c| c.is_alphanumeric())
            .flat_map(|c| c.to_lowercase())
            .map(|c| if c == 'ё' { 'е' } else { c })
            .collect();
        assert_eq!(joined, direct);
        assert!(split_identifier(s).iter().all(|w| !w.is_empty() && !w.contains('ё')));
    }
}

#[test]
fn cyrillic_letters() {
    assert!(is_cyr('а') && is_cyr('Я') && is_cyr('ё') && is_cyr('Ё'));
    assert!(is_cyr('і') && is_cyr('Ї') && is_cyr('ґ') && is_cyr('ў') && is_cyr('ә'));
    assert!(is_cyr('\u{481}') && is_cyr('\u{48a}') && is_cyr('\u{52f}') && is_cyr('\u{a66e}'));
    assert!(is_cyr('\u{1c80}') && is_cyr('\u{1d2b}') && is_cyr('\u{1d78}') && is_cyr('\u{1e030}'));
    assert!(!is_cyr('a') && !is_cyr('Z') && !is_cyr('i') && !is_cyr('1') && !is_cyr('ω'));
    // Signs and marks of the Cyrillic blocks are no letters.
    for c in '\u{482}'..='\u{489}' {
        assert!(!is_cyr(c));
    }
    for c in '\u{a66f}'..='\u{a67e}' {
        assert!(!is_cyr(c));
    }
    assert!(!is_cyr('\u{3ff}') && !is_cyr('\u{530}') && !is_cyr('\u{2de0}') && !is_cyr('\u{a69e}'));
    assert_eq!(fold_yo("Ёлки-ёлочки"), "Ёлки-елочки");
    assert_eq!(fold_text("ЁЛКА"), "елка");
}

#[test]
fn long_text_is_cut_at_a_word() {
    assert_eq!(cut_chars("короткий", 8), "короткий");
    assert_eq!(cut_chars("раз два три четыре", 12), "раз два три");
    assert_eq!(cut_chars("abcdefgh ij", 10), "abcdefgh");
    // One long word is cut in the middle.
    assert_eq!(cut_chars("а оченьдлинноеслово", 10), "а оченьдли");
    assert_eq!(cut_chars("оченьдлинноеслово", 5), "очень");
    assert_eq!(cut_chars("слово", 0), "");
    // A blank that stands before the middle in characters does not count, however many
    // bytes precede it.
    assert_eq!(cut_chars("абв гдежзиклмн", 10), "абв гдежзи");
}

#[test]
fn first_line_is_the_head() {
    assert_eq!(head_line("  первая \r\nвторая"), "первая");
    assert_eq!(head_line(""), "");
    assert_eq!(head_line("\nвторая"), "");
    let long = "я".repeat(HEAD_LIMIT_CHARS + 5);
    assert_eq!(head_line(&long).chars().count(), HEAD_LIMIT_CHARS);
}

#[test]
fn owner_with_backslashes_and_without_a_name() {
    assert_eq!(
        object_from_module_path("ext\\HTTPServices\\Обмен\\Ext\\Module.bsl"),
        Some(("HTTPService", "Обмен".to_string()))
    );
    assert_eq!(object_from_module_path("Catalogs"), None);
    assert_eq!(object_from_module_path("Catalogs/"), Some(("Catalog", String::new())));
    assert_eq!(object_from_module_path(""), None);
    assert_eq!(
        object_from_module_path("FilterCriteria/К/Ext/ManagerModule.bsl"),
        Some(("FilterCriterion", "К".to_string()))
    );
    assert_eq!(split_path("a\\b/c"), vec!["a", "b", "c"]);
    assert_eq!(forward_slashes("a\\b/c"), "a/b/c");
}

#[test]
fn folders_before_and_behind_the_owner_do_not_matter() {
    let path = "Tasks/Задача";
    let owner = object_from_module_path(path);
    assert_eq!(owner, Some(("Task", "Задача".to_string())));
    assert_eq!(object_from_module_path(&format!("extensions/Р/{path}")), owner);
    assert_eq!(object_from_module_path(&format!("{path}/Forms/Ф/Ext/Form/Module.bsl")), owner);
}

#[test]
fn meta_tag_lines() {
    assert_eq!(
        parse_meta_tag("@Tags  весы, гири "),
        Some(("tags".to_string(), "весы, гири".to_string()))
    );
    assert_eq!(parse_meta_tag("@tags"), None);
    assert_eq!(parse_meta_tag("@tags: весы"), None);
    assert_eq!(parse_meta_tag("@tags   "), None);
    assert_eq!(parse_meta_tag("@ весы"), None);
    assert_eq!(parse_meta_tag("весы"), None);
    assert_eq!(parse_meta_tag(""), None);
    assert_eq!(parse_meta_tag("@мой_тег 1"), Some(("мой_тег".to_string(), "1".to_string())));
    assert_eq!(split_tag("@ab c", 3), Some(("ab".to_string(), "c".to_string())));
    assert_eq!(split_tag("@ab c", 2), None);
    assert_eq!(split_tag("@ab c", 9), None);
}

#[test]
fn values_are_normalised_and_distinct() {
    assert_eq!(split_values(" Весы, ,ВЕСЫ,  Учёт ", ','), vec!["весы", "учет"]);
    assert!(split_values(" ; ;", ';').is_empty());
}

#[test]
fn blocks_keep_prose_and_tags_apart() {
    let mut b = MetaBlock::new();
    assert!(b.is_empty());
    b.push("Первая строка");
    b.push("@tags а, б");
    b.push("@tags б, в");
    b.push("@layer infra");
    b.note(BodyLine::Depends(vec!["г".to_string(), "".to_string(), "г".to_string()]));
    b.note(BodyLine::Ignored);
    assert_eq!(b.lines, vec!["Первая строка"]);
    assert_eq!(b.tags, vec!["а", "б", "в"]);
    assert_eq!(b.depends, vec!["г"]);
    assert_eq!(b.len_chars, 13 + 1 + 10 + 1 + 10 + 1 + 12);
    assert!(!b.is_empty());
}

#[test]
fn comment_lines_above_a_procedure() {
    let lines = vec!["// a", "Код", "// ====", "//// b ", "&НаКлиенте", "  // c", "Процедура"];
    assert_eq!(comment_bodies(&lines, 7), vec!["b", "c"]);
    assert_eq!(comment_bodies(&lines, 2), vec!["a"]);
    assert!(comment_bodies(&lines, 0).is_empty());
    // Behind the end of the text there is nothing to describe.
    assert!(comment_bodies(&lines, 9).is_empty());
    assert_eq!(comment_bodies(&lines, 8), Vec::<String>::new());
    let c = describe(&vec!["раз".to_string(), "два".to_string()]).unwrap();
    assert_eq!((c.prose.as_str(), c.head.as_str(), c.len_chars), ("раз два", "раз", 7));
    assert!(describe(&vec![]).is_none());
}

#[test]
fn prose_keeps_tags_of_a_comment() {
    let long = "слово ".repeat(100);
    let with = vec![format!("// {long}"), "// @tags весы".to_string(), "Процедура".to_string()];
    let without = vec!["// @tags весы".to_string(), "Процедура".to_string()];
    let a = extract_leading_comment(&with, 3).unwrap();
    let b = extract_leading_comment(&without, 2).unwrap();
    assert_eq!(a.tags, b.tags);
    assert!(a.prose.chars().count() <= PROSE_LIMIT_CHARS);
    assert!(a.len_chars > 0 && b.len_chars > 0);
}

#[test]
fn header_lines_and_their_end() {
    let lines = vec!["", "// a", "//--", "// b", "#Если", "// c"];
    let (bodies, end) = header_comment(&lines);
    assert_eq!(bodies, vec!["a", "b"]);
    assert_eq!(end, 4);
    let h = extract_module_header(&lines).unwrap();
    assert_eq!(h.prose, "a\nb");
    assert_eq!(h.tags_line(), "");
    let long = vec![format!("// {}", "x".repeat(3000))];
    let prose = extract_module_header(&long).unwrap().prose;
    assert_eq!(prose.chars().count(), HEADER_PROSE_LIMIT_CHARS);
    assert!(extract_module_header(&["//", "// ---", ""]).is_none());
    let h = extract_module_header(&["// @depends А; Б", "ПЕРЕМ Х"]).unwrap();
    assert_eq!(h.depends_line(), "а; б");
    assert_eq!(h.head(), "");
    assert!(extract_module_header(&["// a", "Переменная = 1;"]).is_none());
}

#[test]
fn first_comment_is_a_header_or_a_description() {
    // Straight before a procedure it describes the procedure.
    let lines = vec!["", "// Делает.", "// @tags а", "Процедура П()"];
    let (bodies, end) = header_comment(&lines);
    assert_eq!(comment_bodies(&lines, end + 1), bodies);
    assert!(extract_module_header(&lines).is_none());
    assert!(extract_leading_comment(&lines, end + 1).is_some());
    // Before an empty line it describes the module and no procedure.
    let lines = vec!["// Модуль.", "", "Процедура П()"];
    assert!(extract_module_header(&lines).is_some());
    assert!(extract_leading_comment(&lines, 3).is_none());
}

#[test]
fn what_closes_a_header() {
    assert!(extract_module_header(&["// Делает что-то.", "#Использовать lib"]).is_none());
    let h = extract_module_header(&["// Шапка.", "Перем\tКэш;"]).unwrap();
    assert_eq!(h, ModuleHeader { prose: "Шапка.".into(), ..Default::default() });
    assert!(extract_module_header(&["// Шапка.", "#If Server Then"]).is_some());
    assert!(extract_module_header(&["// Шапка.", "#Region Public"]).is_some());
    assert!(extract_module_header(&["// Шапка.", "Var Cache;"]).is_some());
}

#[test]
fn description_behind_a_byte_order_mark() {
    let lines = vec!["\u{feff}// Делает.", "// @tags а", "Процедура П()"];
    assert!(extract_module_header(&lines).is_none());
    let c = extract_leading_comment(&lines, 3).unwrap();
    assert_eq!(c.prose, "Делает.");
    assert_eq!(c.tags, vec!["а"]);
}

#[test]
fn only_lines_above_a_procedure_matter() {
    let a = vec!["// Делает.", "Процедура П()", "КонецПроцедуры"];
    let b = vec!["// Делает.", "// Другое."];
    assert_eq!(extract_leading_comment(&a, 2), extract_leading_comment(&b, 2));
}

#[test]
fn one_word_of_one_alphabet() {
    assert_eq!(split_identifier("Київ"), vec!["київ"]);
    assert_eq!(split_identifier("ҚазақстанДемо"), vec!["қазақстан", "демо"]);
    assert_eq!(split_identifier("КиївCity"), vec!["київ", "city"]);
}

#[test]
fn texts_and_identifiers_fold_alike() {
    for s in ["Весы", "ΑΣ", "ЁЖ", "İ", "abc"] {
        assert_eq!(split_identifier(s), vec![fold_text(s)]);
    }
    assert_eq!(fold_text("ΑΣ, Ёж"), "ασ, еж");
}

#[test]
fn lines_of_the_module_level() {
    for s in [
        "#область имя", "#область", "# область", "#region x", "#если сервер тогда", "#если(а)", "#if x",
        "перем а", "перем\tа", "var x", "var\u{a0}x", "перем", "var",
    ] {
        assert!(is_module_level(s), "{s}");
    }
    for s in [
        "", "перемен", "перем;", "variable", "процедура п()", " #если", "#", "#использовать lib",
        "#областьа", "#iffy", "#конецобласти", "#!", "&насервере",
    ] {
        assert!(!is_module_level(s), "{s}");
    }
}

#[test]
fn phrases_are_distinct_and_in_order() {
    let list: Vec<String> = ["а", "", "б", "а"].iter().map(|s| s.to_string()).collect();
    assert_eq!(join_phrases(&list), "а, б");
    let mut parts = vec!["а".to_string()];
    add_phrase(&mut parts, "а".to_string());
    add_phrase(&mut parts, String::new());
    add_phrase(&mut parts, "б".to_string());
    assert_eq!(parts, vec!["а", "б"]);
    assert_eq!(join_phrases(&vec![]), "");
}

#[test]
fn terms_of_nothing_are_empty() {
    assert_eq!(build_terms("___", None, None, None, &[]), "");
    assert_eq!(build_terms("", Some(""), Some(""), Some(&LeadingComment::default()), &[]), "");
    let header = ModuleHeader::default();
    assert!(header.prose.is_empty() && header.tags.is_empty() && header.depends.is_empty());
    assert_eq!(MECH_SIGNATURE, "mech:v2");
}

#[test]
fn terms_hold_no_yo() {
    let comment = LeadingComment {
        prose: "Счёт".into(),
        tags: vec!["Учёт".into()],
        ..Default::default()
    };
    let terms = build_terms("ЁмкийЁж", Some("Ёлка"), Some("ЁЛКА"), Some(&comment), &["ё".into()]);
    assert_eq!(terms, "учет, емкий еж, елка, счет, е");
}

#[test]
fn tags_lead_the_terms() {
    let comment = LeadingComment { tags: vec!["Б".into(), "А".into()], ..Default::default() };
    assert_eq!(build_terms("Имя", None, Some("Синоним"), Some(&comment), &[]), "б, а, имя, синоним");
}
