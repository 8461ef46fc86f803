//! Names of form events.
//!
//! A dump names the events of forms by the identifiers of the platform; developers
//! know them by their Russian names, which event subscriptions use as well.

use vstd::prelude::*;

use crate::text::same_text;

verus! {

/// Russian name of an event of the form itself.
pub open spec fn form_itself_event(event: Seq<char>) -> Option<Seq<char>> {
    if event == "OnOpen"@ {
        Some("ПриОткрытии"@)
    } else if event == "OnClose"@ {
        Some("ПриЗакрытии"@)
    } else if event == "BeforeClose"@ {
        Some("ПередЗакрытием"@)
    } else if event == "OnCreateAtServer"@ {
        Some("ПриСозданииНаСервере"@)
    } else if event == "OnReadAtServer"@ {
        Some("ПриЧтенииНаСервере"@)
    } else if event == "BeforeWrite"@ {
        Some("ПередЗаписью"@)
    } else if event == "BeforeWriteAtServer"@ {
        Some("ПередЗаписьюНаСервере"@)
    } else if event == "OnWriteAtServer"@ {
        Some("ПриЗаписиНаСервере"@)
    } else if event == "AfterWrite"@ {
        Some("ПослеЗаписи"@)
    } else if event == "AfterWriteAtServer"@ {
        Some("ПослеЗаписиНаСервере"@)
    } else if event == "FillCheckProcessingAtServer"@ {
        Some("ОбработкаПроверкиЗаполненияНаСервере"@)
    } else if event == "NotificationProcessing"@ {
        Some("ОбработкаОповещения"@)
    } else if event == "ChoiceProcessing"@ {
        Some("ОбработкаВыбора"@)
    } else if event == "NewWriteProcessing"@ {
        Some("ОбработкаЗаписиНового"@)
    } else if event == "OnReopen"@ {
        Some("ПриПовторномОткрытии"@)
    } else if event == "ExternalEvent"@ {
        Some("ВнешнееСобытие"@)
    } else if event == "URLProcessing"@ {
        Some("ОбработкаНавигационнойСсылки"@)
    } else if event == "OnSaveDataInSettingsAtServer"@ {
        Some("ПриСохраненииДанныхВНастройкахНаСервере"@)
    } else if event == "OnLoadDataFromSettingsAtServer"@ {
        Some("ПриЗагрузкеДанныхИзНастроекНаСервере"@)
    } else if event == "BeforeLoadDataFromSettingsAtServer"@ {
        Some("ПередЗагрузкойДанныхИзНастроекНаСервере"@)
    } else {
        None
    }
}

/// Russian name of an event of an element of a form.
pub open spec fn form_element_event(event: Seq<char>) -> Option<Seq<char>> {
    if event == "OnChange"@ {
        Some("ПриИзменении"@)
    } else if event == "StartChoice"@ {
        Some("НачалоВыбора"@)
    } else if event == "StartListChoice"@ {
        Some("НачалоВыбораИзСписка"@)
    } else if event == "Clearing"@ {
        Some("Очистка"@)
    } else if event == "Opening"@ {
        Some("Открытие"@)
    } else if event == "AutoComplete"@ {
        Some("АвтоПодбор"@)
    } else if event == "TextEditEnd"@ {
        Some("ОкончаниеВводаТекста"@)
    } else if event == "EditTextChange"@ {
        Some("ИзменениеТекстаРедактирования"@)
    } else if event == "Click"@ {
        Some("Нажатие"@)
    } else if event == "Selection"@ {
        Some("Выбор"@)
    } else if event == "ValueChoice"@ {
        Some("ВыборЗначения"@)
    } else if event == "BeforeAddRow"@ {
        Some("ПередНачаломДобавления"@)
    } else if event == "BeforeRowChange"@ {
        Some("ПередНачаломИзменения"@)
    } else if event == "BeforeDeleteRow"@ {
        Some("ПередУдалением"@)
    } else if event == "AfterDeleteRow"@ {
        Some("ПослеУдаления"@)
    } else if event == "OnStartEdit"@ {
        Some("ПриНачалеРедактирования"@)
    } else if event == "OnEditEnd"@ {
        Some("ПриОкончанииРедактирования"@)
    } else if event == "BeforeEditEnd"@ {
        Some("ПередОкончаниемРедактирования"@)
    } else if event == "OnActivateRow"@ {
        Some("ПриАктивизацииСтроки"@)
    } else if event == "OnActivateCell"@ {
        Some("ПриАктивизацииЯчейки"@)
    } else if event == "OnActivateField"@ {
        Some("ПриАктивизацииПоля"@)
    } else if event == "OnActivate"@ {
        Some("ПриАктивизации"@)
    } else if event == "Drag"@ {
        Some("Перетаскивание"@)
    } else if event == "DragStart"@ {
        Some("НачалоПеретаскивания"@)
    } else if event == "DragEnd"@ {
        Some("ОкончаниеПеретаскивания"@)
    } else if event == "DragCheck"@ {
        Some("ПроверкаПеретаскивания"@)
    } else if event == "BeforeExpand"@ {
        Some("ПередРазворачиванием"@)
    } else if event == "BeforeCollapse"@ {
        Some("ПередСворачиванием"@)
    } else if event == "OnCurrentPageChange"@ {
        Some("ПриСменеСтраницы"@)
    } else if event == "OnGetDataAtServer"@ {
        Some("ПриПолученииДанныхНаСервере"@)
    } else if event == "DetailProcessing"@ {
        Some("ОбработкаРасшифровки"@)
    } else if event == "AdditionalDetailProcessing"@ {
        Some("ОбработкаДополнительнойРасшифровки"@)
    } else if event == "DocumentComplete"@ {
        Some("ДокументСформирован"@)
    } else if event == "OnClick"@ {
        Some("ПриНажатии"@)
    } else if event == "Creating"@ {
        Some("Создание"@)
    } else {
        None
    }
}

/// Russian name of an event of a report form.
pub open spec fn report_form_event(event: Seq<char>) -> Option<Seq<char>> {
    if event == "OnUpdateUserSettingSetAtServer"@ {
        Some("ПриОбновленииСоставаПользовательскихНастроекНаСервере"@)
    } else if event == "OnSaveUserSettingsAtServer"@ {
        Some("ПриСохраненииПользовательскихНастроекНаСервере"@)
    } else if event == "OnLoadUserSettingsAtServer"@ {
        Some("ПриЗагрузкеПользовательскихНастроекНаСервере"@)
    } else if event == "BeforeLoadUserSettingsAtServer"@ {
        Some("ПередЗагрузкойПользовательскихНастроекНаСервере"@)
    } else if event == "OnSaveVariantAtServer"@ {
        Some("ПриСохраненииВариантаНаСервере"@)
    } else if event == "OnLoadVariantAtServer"@ {
        Some("ПриЗагрузкеВариантаНаСервере"@)
    } else if event == "BeforeLoadVariantAtServer"@ {
        Some("ПередЗагрузкойВариантаНаСервере"@)
    } else if event == "BeforePrint"@ {
        Some("ПередПечатью"@)
    } else {
        None
    }
}

/// Russian name of an event that few forms use.
pub open spec fn rare_event(event: Seq<char>) -> Option<Seq<char>> {
    if event == "Tuning"@ {
        Some("Регулирование"@)
    } else if event == "RefreshRequestProcessing"@ {
        Some("ОбработкаЗапросаОбновления"@)
    } else if event == "URLGetProcessing"@ {
        Some("ОбработкаПолученияНавигационнойСсылки"@)
    } else if event == "URLListGetProcessing"@ {
        Some("ОбработкаПолученияСпискаНавигационныхСсылок"@)
    } else if event == "NavigationProcessing"@ {
        Some("ОбработкаПерехода"@)
    } else if event == "ActivationProcessing"@ {
        Some("ОбработкаАктивизации"@)
    } else if event == "OnChangeAreaContent"@ {
        Some("ПриИзмененииСодержимогоОбласти"@)
    } else if event == "OnPeriodOutput"@ {
        Some("ПриВыводеПериода"@)
    } else if event == "OnActivateDate"@ {
        Some("ПриАктивизацииДаты"@)
    } else if event == "OnCurrentParentChange"@ {
        Some("ПриСменеТекущегоРодителя"@)
    } else if event == "OnCurrentRepresentationPeriodChange"@ {
        Some("ПриСменеТекущегоПериодаОтображения"@)
    } else if event == "MultipleValueOpening"@ {
        Some("ОткрытиеМножественногоЗначения"@)
    } else if event == "MultipleValuesDelete"@ {
        Some("УдалениеМножественныхЗначений"@)
    } else if event == "BeforeStartEdit"@ {
        Some("ПередНачаломРедактирования"@)
    } else if event == "BeforeStartQuickEdit"@ {
        Some("ПередНачаломБыстрогоРедактирования"@)
    } else if event == "BeforeCreate"@ {
        Some("ПередСозданием"@)
    } else if event == "BeforeDelete"@ {
        Some("ПередУдалением"@)
    } else if event == "BeforeExecute"@ {
        Some("ПередВыполнением"@)
    } else if event == "CommandGenerateProcessing"@ {
        Some("ОбработкаФормированияКоманд"@)
    } else if event == "OnMainServerAvailabilityChange"@ {
        Some("ПриИзмененииДоступностиОсновногоСервера"@)
    } else if event == "OnClientApplicationSuspend"@ {
        Some("ПриЗасыпанииКлиентскогоПриложения"@)
    } else if event == "OnClientApplicationResume"@ {
        Some("ПриПробужденииКлиентскогоПриложения"@)
    } else if event == "OnReopenFromOtherServer"@ {
        Some("ПриПереоткрытииСДругогоСервера"@)
    } else if event == "BeforeReopenFromOtherServer"@ {
        Some("ПередПереоткрытиемСДругогоСервера"@)
    } else if event == "AddInDetachmentOnError"@ {
        Some("ОтключениеВнешнейКомпонентыПриОшибке"@)
    } else if event == "OnChangeDisplaySettings"@ {
        Some("ПриИзмененииПараметровЭкрана"@)
    } else if event == "CollaborationSystemUsersAutoComplete"@ {
        Some("АвтоПодборПользователейСистемыВзаимодействия"@)
    } else if event == "CollaborationSystemUsersChoiceFormGetProcessing"@ {
        Some("ОбработкаПолученияФормыВыбораПользователейСистемыВзаимодействия"@)
    } else {
        None
    }
}

/// Russian name of an event, nothing for an event that has none.
pub open spec fn translation(event: Seq<char>) -> Option<Seq<char>> {
    if form_itself_event(event) is Some {
        form_itself_event(event)
    } else if form_element_event(event) is Some {
        form_element_event(event)
    } else if report_form_event(event) is Some {
        report_form_event(event)
    } else {
        rare_event(event)
    }
}

/// Russian name of an event; a name without a translation stays as it is.
pub open spec fn russian(event: Seq<char>) -> Seq<char> {
    match translation(event) {
        Some(name) => name,
        None => event,
    }
}

fn find_form_itself_event(event: &str) -> (r: Option<&'static str>)
    ensures
        match r {
            Some(name) => form_itself_event(event@) == Some(name@),
            None => form_itself_event(event@) is None,
        },
{
    if same_text(event, "OnOpen") {
        Some("ПриОткрытии")
    } else if same_text(event, "OnClose") {
        Some("ПриЗакрытии")
    } else if same_text(event, "BeforeClose") {
        Some("ПередЗакрытием")
    } else if same_text(event, "OnCreateAtServer") {
        Some("ПриСозданииНаСервере")
    } else if same_text(event, "OnReadAtServer") {
        Some("ПриЧтенииНаСервере")
    } else if same_text(event, "BeforeWrite") {
        Some("ПередЗаписью")
    } else if same_text(event, "BeforeWriteAtServer") {
        Some("ПередЗаписьюНаСервере")
    } else if same_text(event, "OnWriteAtServer") {
        Some("ПриЗаписиНаСервере")
    } else if same_text(event, "AfterWrite") {
        Some("ПослеЗаписи")
    } else if same_text(event, "AfterWriteAtServer") {
        Some("ПослеЗаписиНаСервере")
    } else if same_text(event, "FillCheckProcessingAtServer") {
        Some("ОбработкаПроверкиЗаполненияНаСервере")
    } else if same_text(event, "NotificationProcessing") {
        Some("ОбработкаОповещения")
    } else if same_text(event, "ChoiceProcessing") {
        Some("ОбработкаВыбора")
    } else if same_text(event, "NewWriteProcessing") {
        Some("ОбработкаЗаписиНового")
    } else if same_text(event, "OnReopen") {
        Some("ПриПовторномОткрытии")
    } else if same_text(event, "ExternalEvent") {
        Some("ВнешнееСобытие")
    } else if same_text(event, "URLProcessing") {
        Some("ОбработкаНавигационнойСсылки")
    } else if same_text(event, "OnSaveDataInSettingsAtServer") {
        Some("ПриСохраненииДанныхВНастройкахНаСервере")
    } else if same_text(event, "OnLoadDataFromSettingsAtServer") {
        Some("ПриЗагрузкеДанныхИзНастроекНаСервере")
    } else if same_text(event, "BeforeLoadDataFromSettingsAtServer") {
        Some("ПередЗагрузкойДанныхИзНастроекНаСервере")
    } else {
        None
    }
}

fn find_form_element_event(event: &str) -> (r: Option<&'static str>)
    ensures
        match r {
            Some(name) => form_element_event(event@) == Some(name@),
            None => form_element_event(event@) is None,
        },
{
    if same_text(event, "OnChange") {
        Some("ПриИзменении")
    } else if same_text(event, "StartChoice") {
        Some("НачалоВыбора")
    } else if same_text(event, "StartListChoice") {
        Some("НачалоВыбораИзСписка")
    } else if same_text(event, "Clearing") {
        Some("Очистка")
    } else if same_text(event, "Opening") {
        Some("Открытие")
    } else if same_text(event, "AutoComplete") {
        Some("АвтоПодбор")
    } else if same_text(event, "TextEditEnd") {
        Some("ОкончаниеВводаТекста")
    } else if same_text(event, "EditTextChange") {
        Some("ИзменениеТекстаРедактирования")
    } else if same_text(event, "Click") {
        Some("Нажатие")
    } else if same_text(event, "Selection") {
        Some("Выбор")
    } else if same_text(event, "ValueChoice") {
        Some("ВыборЗначения")
    } else if same_text(event, "BeforeAddRow") {
        Some("ПередНачаломДобавления")
    } else if same_text(event, "BeforeRowChange") {
        Some("ПередНачаломИзменения")
    } else if same_text(event, "BeforeDeleteRow") {
        Some("ПередУдалением")
    } else if same_text(event, "AfterDeleteRow") {
        Some("ПослеУдаления")
    } else if same_text(event, "OnStartEdit") {
        Some("ПриНачалеРедактирования")
    } else if same_text(event, "OnEditEnd") {
        Some("ПриОкончанииРедактирования")
    } else if same_text(event, "BeforeEditEnd") {
        Some("ПередОкончаниемРедактирования")
    } else if same_text(event, "OnActivateRow") {
        Some("ПриАктивизацииСтроки")
    } else if same_text(event, "OnActivateCell") {
        Some("ПриАктивизацииЯчейки")
    } else if same_text(event, "OnActivateField") {
        Some("ПриАктивизацииПоля")
    } else if same_text(event, "OnActivate") {
        Some("ПриАктивизации")
    } else if same_text(event, "Drag") {
        Some("Перетаскивание")
    } else if same_text(event, "DragStart") {
        Some("НачалоПеретаскивания")
    } else if same_text(event, "DragEnd") {
        Some("ОкончаниеПеретаскивания")
    } else if same_text(event, "DragCheck") {
        Some("ПроверкаПеретаскивания")
    } else if same_text(event, "BeforeExpand") {
        Some("ПередРазворачиванием")
    } else if same_text(event, "BeforeCollapse") {
        Some("ПередСворачиванием")
    } else if same_text(event, "OnCurrentPageChange") {
        Some("ПриСменеСтраницы")
    } else if same_text(event, "OnGetDataAtServer") {
        Some("ПриПолученииДанныхНаСервере")
    } else if same_text(event, "DetailProcessing") {
        Some("ОбработкаРасшифровки")
    } else if same_text(event, "AdditionalDetailProcessing") {
        Some("ОбработкаДополнительнойРасшифровки")
    } else if same_text(event, "DocumentComplete") {
        Some("ДокументСформирован")
    } else if same_text(event, "OnClick") {
        Some("ПриНажатии")
    } else if same_text(event, "Creating") {
        Some("Создание")
    } else {
        None
    }
}

fn find_report_form_event(event: &str) -> (r: Option<&'static str>)
    ensures
        match r {
            Some(name) => report_form_event(event@) == Some(name@),
            None => report_form_event(event@) is None,
        },
{
    if same_text(event, "OnUpdateUserSettingSetAtServer") {
        Some("ПриОбновленииСоставаПользовательскихНастроекНаСервере")
    } else if same_text(event, "OnSaveUserSettingsAtServer") {
        Some("ПриСохраненииПользовательскихНастроекНаСервере")
    } else if same_text(event, "OnLoadUserSettingsAtServer") {
        Some("ПриЗагрузкеПользовательскихНастроекНаСервере")
    } else if same_text(event, "BeforeLoadUserSettingsAtServer") {
        Some("ПередЗагрузкойПользовательскихНастроекНаСервере")
    } else if same_text(event, "OnSaveVariantAtServer") {
        Some("ПриСохраненииВариантаНаСервере")
    } else if same_text(event, "OnLoadVariantAtServer") {
        Some("ПриЗагрузкеВариантаНаСервере")
    } else if same_text(event, "BeforeLoadVariantAtServer") {
        Some("ПередЗагрузкойВариантаНаСервере")
    } else if same_text(event, "BeforePrint") {
        Some("ПередПечатью")
    } else {
        None
    }
}

fn find_rare_event(event: &str) -> (r: Option<&'static str>)
    ensures
        match r {
            Some(name) => rare_event(event@) == Some(name@),
            None => rare_event(event@) is None,
        },
{
    if same_text(event, "Tuning") {
        Some("Регулирование")
    } else if same_text(event, "RefreshRequestProcessing") {
        Some("ОбработкаЗапросаОбновления")
    } else if same_text(event, "URLGetProcessing") {
        Some("ОбработкаПолученияНавигационнойСсылки")
    } else if same_text(event, "URLListGetProcessing") {
        Some("ОбработкаПолученияСпискаНавигационныхСсылок")
    } else if same_text(event, "NavigationProcessing") {
        Some("ОбработкаПерехода")
    } else if same_text(event, "ActivationProcessing") {
        Some("ОбработкаАктивизации")
    } else if same_text(event, "OnChangeAreaContent") {
        Some("ПриИзмененииСодержимогоОбласти")
    } else if same_text(event, "OnPeriodOutput") {
        Some("ПриВыводеПериода")
    } else if same_text(event, "OnActivateDate") {
        Some("ПриАктивизацииДаты")
    } else if same_text(event, "OnCurrentParentChange") {
        Some("ПриСменеТекущегоРодителя")
    } else if same_text(event, "OnCurrentRepresentationPeriodChange") {
        Some("ПриСменеТекущегоПериодаОтображения")
    } else if same_text(event, "MultipleValueOpening") {
        Some("ОткрытиеМножественногоЗначения")
    } else if same_text(event, "MultipleValuesDelete") {
        Some("УдалениеМножественныхЗначений")
    } else if same_text(event, "BeforeStartEdit") {
        Some("ПередНачаломРедактирования")
    } else if same_text(event, "BeforeStartQuickEdit") {
        Some("ПередНачаломБыстрогоРедактирования")
    } else if same_text(event, "BeforeCreate") {
        Some("ПередСозданием")
    } else if same_text(event, "BeforeDelete") {
        Some("ПередУдалением")
    } else if same_text(event, "BeforeExecute") {
        Some("ПередВыполнением")
    } else if same_text(event, "CommandGenerateProcessing") {
        Some("ОбработкаФормированияКоманд")
    } else if same_text(event, "OnMainServerAvailabilityChange") {
        Some("ПриИзмененииДоступностиОсновногоСервера")
    } else if same_text(event, "OnClientApplicationSuspend") {
        Some("ПриЗасыпанииКлиентскогоПриложения")
    } else if same_text(event, "OnClientApplicationResume") {
        Some("ПриПробужденииКлиентскогоПриложения")
    } else if same_text(event, "OnReopenFromOtherServer") {
        Some("ПриПереоткрытииСДругогоСервера")
    } else if same_text(event, "BeforeReopenFromOtherServer") {
        Some("ПередПереоткрытиемСДругогоСервера")
    } else if same_text(event, "AddInDetachmentOnError") {
        Some("ОтключениеВнешнейКомпонентыПриОшибке")
    } else if same_text(event, "OnChangeDisplaySettings") {
        Some("ПриИзмененииПараметровЭкрана")
    } else if same_text(event, "CollaborationSystemUsersAutoComplete") {
        Some("АвтоПодборПользователейСистемыВзаимодействия")
    } else if same_text(event, "CollaborationSystemUsersChoiceFormGetProcessing") {
        Some("ОбработкаПолученияФормыВыбораПользователейСистемыВзаимодействия")
    } else {
        None
    }
}

/// Russian name of an event of a form or of its element, as the configurator shows it.
/// Names without a translation, such as identifiers of outside components and names
/// that are Russian already, come back as they are.
pub fn form_event_to_russian(event: &str) -> (r: &str)
    ensures
        r@ == russian(event@),
{
    if let Some(name) = find_form_itself_event(event) {
        return name;
    }
    if let Some(name) = find_form_element_event(event) {
        return name;
    }
    if let Some(name) = find_report_form_event(event) {
        return name;
    }
    if let Some(name) = find_rare_event(event) {
        return name;
    }
    event
}

/// Whether a name begins with a letter outside the Russian alphabet.
pub open spec fn begins_foreign(s: Seq<char>) -> bool {
    s.len() > 0 && s[0] < 'Ё'
}

proof fn lemma_form_itself_keys(event: Seq<char>)
    ensures
        form_itself_event(event) is Some ==> begins_foreign(event),
{
    reveal_strlit("OnOpen");
    reveal_strlit("OnClose");
    reveal_strlit("BeforeClose");
    reveal_strlit("OnCreateAtServer");
    reveal_strlit("OnReadAtServer");
    reveal_strlit("BeforeWrite");
    reveal_strlit("BeforeWriteAtServer");
    reveal_strlit("OnWriteAtServer");
    reveal_strlit("AfterWrite");
    reveal_strlit("AfterWriteAtServer");
    reveal_strlit("FillCheckProcessingAtServer");
    reveal_strlit("NotificationProcessing");
    reveal_strlit("ChoiceProcessing");
    reveal_strlit("NewWriteProcessing");
    reveal_strlit("OnReopen");
    reveal_strlit("ExternalEvent");
    reveal_strlit("URLProcessing");
    reveal_strlit("OnSaveDataInSettingsAtServer");
    reveal_strlit("OnLoadDataFromSettingsAtServer");
    reveal_strlit("BeforeLoadDataFromSettingsAtServer");
}

proof fn lemma_form_itself_names(event: Seq<char>)
    ensures
        form_itself_event(event) is Some ==> form_itself_event(event)->0.len() > 0 && !begins_foreign(
            form_itself_event(event)->0,
        ),
{
    reveal_strlit("ПриОткрытии");
    reveal_strlit("ПриЗакрытии");
    reveal_strlit("ПередЗакрытием");
    reveal_strlit("ПриСозданииНаСервере");
    reveal_strlit("ПриЧтенииНаСервере");
    reveal_strlit("ПередЗаписью");
    reveal_strlit("ПередЗаписьюНаСервере");
    reveal_strlit("ПриЗаписиНаСервере");
    reveal_strlit("ПослеЗаписи");
    reveal_strlit("ПослеЗаписиНаСервере");
    reveal_strlit("ОбработкаПроверкиЗаполненияНаСервере");
    reveal_strlit("ОбработкаОповещения");
    reveal_strlit("ОбработкаВыбора");
    reveal_strlit("ОбработкаЗаписиНового");
    reveal_strlit("ПриПовторномОткрытии");
    reveal_strlit("ВнешнееСобытие");
    reveal_strlit("ОбработкаНавигационнойСсылки");
    reveal_strlit("ПриСохраненииДанныхВНастройкахНаСервере");
    reveal_strlit("ПриЗагрузкеДанныхИзНастроекНаСервере");
    reveal_strlit("ПередЗагрузкойДанныхИзНастроекНаСервере");
}

proof fn lemma_form_element_keys(event: Seq<char>)
    ensures
        form_element_event(event) is Some ==> begins_foreign(event),
{
    reveal_strlit("OnChange");
    reveal_strlit("StartChoice");
    reveal_strlit("StartListChoice");
    reveal_strlit("Clearing");
    reveal_strlit("Opening");
    reveal_strlit("AutoComplete");
    reveal_strlit("TextEditEnd");
    reveal_strlit("EditTextChange");
    reveal_strlit("Click");
    reveal_strlit("Selection");
    reveal_strlit("ValueChoice");
    reveal_strlit("BeforeAddRow");
    reveal_strlit("BeforeRowChange");
    reveal_strlit("BeforeDeleteRow");
    reveal_strlit("AfterDeleteRow");
    reveal_strlit("OnStartEdit");
    reveal_strlit("OnEditEnd");
    reveal_strlit("BeforeEditEnd");
    reveal_strlit("OnActivateRow");
    reveal_strlit("OnActivateCell");
    reveal_strlit("OnActivateField");
    reveal_strlit("OnActivate");
    reveal_strlit("Drag");
    reveal_strlit("DragStart");
    reveal_strlit("DragEnd");
    reveal_strlit("DragCheck");
    reveal_strlit("BeforeExpand");
    reveal_strlit("BeforeCollapse");
    reveal_strlit("OnCurrentPageChange");
    reveal_strlit("OnGetDataAtServer");
    reveal_strlit("DetailProcessing");
    reveal_strlit("AdditionalDetailProcessing");
    reveal_strlit("DocumentComplete");
    reveal_strlit("OnClick");
    reveal_strlit("Creating");
}

proof fn lemma_form_element_names(event: Seq<char>)
    ensures
        form_element_event(event) is Some ==> form_element_event(event)->0.len() > 0 && !begins_foreign(
            form_element_event(event)->0,
        ),
{
    reveal_strlit("ПриИзменении");
    reveal_strlit("НачалоВыбора");
    reveal_strlit("НачалоВыбораИзСписка");
    reveal_strlit("Очистка");
    reveal_strlit("Открытие");
    reveal_strlit("АвтоПодбор");
    reveal_strlit("ОкончаниеВводаТекста");
    reveal_strlit("ИзменениеТекстаРедактирования");
    reveal_strlit("Нажатие");
    reveal_strlit("Выбор");
    reveal_strlit("ВыборЗначения");
    reveal_strlit("ПередНачаломДобавления");
    reveal_strlit("ПередНачаломИзменения");
    reveal_strlit("ПередУдалением");
    reveal_strlit("ПослеУдаления");
    reveal_strlit("ПриНачалеРедактирования");
    reveal_strlit("ПриОкончанииРедактирования");
    reveal_strlit("ПередОкончаниемРедактирования");
    reveal_strlit("ПриАктивизацииСтроки");
    reveal_strlit("ПриАктивизацииЯчейки");
    reveal_strlit("ПриАктивизацииПоля");
    reveal_strlit("ПриАктивизации");
    reveal_strlit("Перетаскивание");
    reveal_strlit("НачалоПеретаскивания");
    reveal_strlit("ОкончаниеПеретаскивания");
    reveal_strlit("ПроверкаПеретаскивания");
    reveal_strlit("ПередРазворачиванием");
    reveal_strlit("ПередСворачиванием");
    reveal_strlit("ПриСменеСтраницы");
    reveal_strlit("ПриПолученииДанныхНаСервере");
    reveal_strlit("ОбработкаРасшифровки");
    reveal_strlit("ОбработкаДополнительнойРасшифровки");
    reveal_strlit("ДокументСформирован");
    reveal_strlit("ПриНажатии");
    reveal_strlit("Создание");
}

proof fn lemma_report_form_keys(event: Seq<char>)
    ensures
        report_form_event(event) is Some ==> begins_foreign(event),
{
    reveal_strlit("OnUpdateUserSettingSetAtServer");
    reveal_strlit("OnSaveUserSettingsAtServer");
    reveal_strlit("OnLoadUserSettingsAtServer");
    reveal_strlit("BeforeLoadUserSettingsAtServer");
    reveal_strlit("OnSaveVariantAtServer");
    reveal_strlit("OnLoadVariantAtServer");
    reveal_strlit("BeforeLoadVariantAtServer");
    reveal_strlit("BeforePrint");
}

proof fn lemma_report_form_names(event: Seq<char>)
    ensures
        report_form_event(event) is Some ==> report_form_event(event)->0.len() > 0 && !begins_foreign(
            report_form_event(event)->0,
        ),
{
    reveal_strlit("ПриОбновленииСоставаПользовательскихНастроекНаСервере");
    reveal_strlit("ПриСохраненииПользовательскихНастроекНаСервере");
    reveal_strlit("ПриЗагрузкеПользовательскихНастроекНаСервере");
    reveal_strlit("ПередЗагрузкойПользовательскихНастроекНаСервере");
    reveal_strlit("ПриСохраненииВариантаНаСервере");
    reveal_strlit("ПриЗагрузкеВариантаНаСервере");
    reveal_strlit("ПередЗагрузкойВариантаНаСервере");
    reveal_strlit("ПередПечатью");
}

proof fn lemma_rare_keys(event: Seq<char>)
    ensures
        rare_event(event) is Some ==> begins_foreign(event),
{
    reveal_strlit("Tuning");
    reveal_strlit("RefreshRequestProcessing");
    reveal_strlit("URLGetProcessing");
    reveal_strlit("URLListGetProcessing");
    reveal_strlit("NavigationProcessing");
    reveal_strlit("ActivationProcessing");
    reveal_strlit("OnChangeAreaContent");
    reveal_strlit("OnPeriodOutput");
    reveal_strlit("OnActivateDate");
    reveal_strlit("OnCurrentParentChange");
    reveal_strlit("OnCurrentRepresentationPeriodChange");
    reveal_strlit("MultipleValueOpening");
    reveal_strlit("MultipleValuesDelete");
    reveal_strlit("BeforeStartEdit");
    reveal_strlit("BeforeStartQuickEdit");
    reveal_strlit("BeforeCreate");
    reveal_strlit("BeforeDelete");
    reveal_strlit("BeforeExecute");
    reveal_strlit("CommandGenerateProcessing");
    reveal_strlit("OnMainServerAvailabilityChange");
    reveal_strlit("OnClientApplicationSuspend");
    reveal_strlit("OnClientApplicationResume");
    reveal_strlit("OnReopenFromOtherServer");
    reveal_strlit("BeforeReopenFromOtherServer");
    reveal_strlit("AddInDetachmentOnError");
    reveal_strlit("OnChangeDisplaySettings");
    reveal_strlit("CollaborationSystemUsersAutoComplete");
    reveal_strlit("CollaborationSystemUsersChoiceFormGetProcessing");
}

proof fn lemma_rare_names(event: Seq<char>)
    ensures
        rare_event(event) is Some ==> rare_event(event)->0.len() > 0 && !begins_foreign(
            rare_event(event)->0,
        ),
{
    reveal_strlit("Регулирование");
    reveal_strlit("ОбработкаЗапросаОбновления");
    reveal_strlit("ОбработкаПолученияНавигационнойСсылки");
    reveal_strlit("ОбработкаПолученияСпискаНавигационныхСсылок");
    reveal_strlit("ОбработкаПерехода");
    reveal_strlit("ОбработкаАктивизации");
    reveal_strlit("ПриИзмененииСодержимогоОбласти");
    reveal_strlit("ПриВыводеПериода");
    reveal_strlit("ПриАктивизацииДаты");
    reveal_strlit("ПриСменеТекущегоРодителя");
    reveal_strlit("ПриСменеТекущегоПериодаОтображения");
    reveal_strlit("ОткрытиеМножественногоЗначения");
    reveal_strlit("УдалениеМножественныхЗначений");
    reveal_strlit("ПередНачаломРедактирования");
    reveal_strlit("ПередНачаломБыстрогоРедактирования");
    reveal_strlit("ПередСозданием");
    reveal_strlit("ПередУдалением");
    reveal_strlit("ПередВыполнением");
    reveal_strlit("ОбработкаФормированияКоманд");
    reveal_strlit("ПриИзмененииДоступностиОсновногоСервера");
    reveal_strlit("ПриЗасыпанииКлиентскогоПриложения");
    reveal_strlit("ПриПробужденииКлиентскогоПриложения");
    reveal_strlit("ПриПереоткрытииСДругогоСервера");
    reveal_strlit("ПередПереоткрытиемСДругогоСервера");
    reveal_strlit("ОтключениеВнешнейКомпонентыПриОшибке");
    reveal_strlit("ПриИзмененииПараметровЭкрана");
    reveal_strlit("АвтоПодборПользователейСистемыВзаимодействия");
    reveal_strlit("ОбработкаПолученияФормыВыбораПользователейСистемыВзаимодействия");
}

/// Names that are translated begin with a letter outside the Russian alphabet.
pub proof fn law_translated_are_foreign(event: Seq<char>)
    ensures
        translation(event) is Some ==> begins_foreign(event),
{
    lemma_form_itself_keys(event);
    lemma_form_element_keys(event);
    lemma_report_form_keys(event);
    lemma_rare_keys(event);
}

/// Translating twice gives the same as translating once: a Russian name stays as it
/// is, so dumps with names of either kind come out alike.
pub proof fn law_translation_is_stable(event: Seq<char>)
    ensures
        russian(russian(event)) == russian(event),
{
    lemma_form_itself_names(event);
    lemma_form_element_names(event);
    lemma_report_form_names(event);
    lemma_rare_names(event);
    law_translated_are_foreign(russian(event));
}

/// A name stays a name: what is not empty is not translated to nothing.
pub proof fn law_translation_is_not_empty(event: Seq<char>)
    requires
        event.len() > 0,
    ensures
        russian(event).len() > 0,
{
    lemma_form_itself_names(event);
    lemma_form_element_names(event);
    lemma_report_form_names(event);
    lemma_rare_names(event);
}

/// The dictionary of the platform: an event and its Russian name.
pub open spec fn is_named(event: Seq<char>, name: Seq<char>) -> bool {
    ||| event == "OnOpen"@ && name == "ПриОткрытии"@
    ||| event == "OnClose"@ && name == "ПриЗакрытии"@
    ||| event == "BeforeClose"@ && name == "ПередЗакрытием"@
    ||| event == "OnCreateAtServer"@ && name == "ПриСозданииНаСервере"@
    ||| event == "OnReadAtServer"@ && name == "ПриЧтенииНаСервере"@
    ||| event == "BeforeWrite"@ && name == "ПередЗаписью"@
    ||| event == "BeforeWriteAtServer"@ && name == "ПередЗаписьюНаСервере"@
    ||| event == "OnWriteAtServer"@ && name == "ПриЗаписиНаСервере"@
    ||| event == "AfterWrite"@ && name == "ПослеЗаписи"@
    ||| event == "AfterWriteAtServer"@ && name == "ПослеЗаписиНаСервере"@
    ||| event == "FillCheckProcessingAtServer"@ && name == "ОбработкаПроверкиЗаполненияНаСервере"@
    ||| event == "NotificationProcessing"@ && name == "ОбработкаОповещения"@
    ||| event == "ChoiceProcessing"@ && name == "ОбработкаВыбора"@
    ||| event == "NewWriteProcessing"@ && name == "ОбработкаЗаписиНового"@
    ||| event == "OnReopen"@ && name == "ПриПовторномОткрытии"@
    ||| event == "ExternalEvent"@ && name == "ВнешнееСобытие"@
    ||| event == "URLProcessing"@ && name == "ОбработкаНавигационнойСсылки"@
    ||| event == "OnSaveDataInSettingsAtServer"@ && name == "ПриСохраненииДанныхВНастройкахНаСервере"@
    ||| event == "OnLoadDataFromSettingsAtServer"@ && name == "ПриЗагрузкеДанныхИзНастроекНаСервере"@
    ||| event == "BeforeLoadDataFromSettingsAtServer"@ && name == "ПередЗагрузкойДанныхИзНастроекНаСервере"@
    ||| event == "OnChange"@ && name == "ПриИзменении"@
    ||| event == "StartChoice"@ && name == "НачалоВыбора"@
    ||| event == "StartListChoice"@ && name == "НачалоВыбораИзСписка"@
    ||| event == "Clearing"@ && name == "Очистка"@
    ||| event == "Opening"@ && name == "Открытие"@
    ||| event == "AutoComplete"@ && name == "АвтоПодбор"@
    ||| event == "TextEditEnd"@ && name == "ОкончаниеВводаТекста"@
    ||| event == "EditTextChange"@ && name == "ИзменениеТекстаРедактирования"@
    ||| event == "Click"@ && name == "Нажатие"@
    ||| event == "Selection"@ && name == "Выбор"@
    ||| event == "ValueChoice"@ && name == "ВыборЗначения"@
    ||| event == "BeforeAddRow"@ && name == "ПередНачаломДобавления"@
    ||| event == "BeforeRowChange"@ && name == "ПередНачаломИзменения"@
    ||| event == "BeforeDeleteRow"@ && name == "ПередУдалением"@
    ||| event == "AfterDeleteRow"@ && name == "ПослеУдаления"@
    ||| event == "OnStartEdit"@ && name == "ПриНачалеРедактирования"@
    ||| event == "OnEditEnd"@ && name == "ПриОкончанииРедактирования"@
    ||| event == "BeforeEditEnd"@ && name == "ПередОкончаниемРедактирования"@
    ||| event == "OnActivateRow"@ && name == "ПриАктивизацииСтроки"@
    ||| event == "OnActivateCell"@ && name == "ПриАктивизацииЯчейки"@
    ||| event == "OnActivateField"@ && name == "ПриАктивизацииПоля"@
    ||| event == "OnActivate"@ && name == "ПриАктивизации"@
    ||| event == "Drag"@ && name == "Перетаскивание"@
    ||| event == "DragStart"@ && name == "НачалоПеретаскивания"@
    ||| event == "DragEnd"@ && name == "ОкончаниеПеретаскивания"@
    ||| event == "DragCheck"@ && name == "ПроверкаПеретаскивания"@
    ||| event == "BeforeExpand"@ && name == "ПередРазворачиванием"@
    ||| event == "BeforeCollapse"@ && name == "ПередСворачиванием"@
    ||| event == "OnCurrentPageChange"@ && name == "ПриСменеСтраницы"@
    ||| event == "OnGetDataAtServer"@ && name == "ПриПолученииДанныхНаСервере"@
    ||| event == "DetailProcessing"@ && name == "ОбработкаРасшифровки"@
    ||| event == "AdditionalDetailProcessing"@ && name == "ОбработкаДополнительнойРасшифровки"@
    ||| event == "DocumentComplete"@ && name == "ДокументСформирован"@
    ||| event == "OnClick"@ && name == "ПриНажатии"@
    ||| event == "Creating"@ && name == "Создание"@
    ||| event == "OnUpdateUserSettingSetAtServer"@ && name == "ПриОбновленииСоставаПользовательскихНастроекНаСервере"@
    ||| event == "OnSaveUserSettingsAtServer"@ && name == "ПриСохраненииПользовательскихНастроекНаСервере"@
    ||| event == "OnLoadUserSettingsAtServer"@ && name == "ПриЗагрузкеПользовательскихНастроекНаСервере"@
    ||| event == "BeforeLoadUserSettingsAtServer"@ && name == "ПередЗагрузкойПользовательскихНастроекНаСервере"@
    ||| event == "OnSaveVariantAtServer"@ && name == "ПриСохраненииВариантаНаСервере"@
    ||| event == "OnLoadVariantAtServer"@ && name == "ПриЗагрузкеВариантаНаСервере"@
    ||| event == "BeforeLoadVariantAtServer"@ && name == "ПередЗагрузкойВариантаНаСервере"@
    ||| event == "BeforePrint"@ && name == "ПередПечатью"@
    ||| event == "Tuning"@ && name == "Регулирование"@
    ||| event == "RefreshRequestProcessing"@ && name == "ОбработкаЗапросаОбновления"@
    ||| event == "URLGetProcessing"@ && name == "ОбработкаПолученияНавигационнойСсылки"@
    ||| event == "URLListGetProcessing"@ && name == "ОбработкаПолученияСпискаНавигационныхСсылок"@
    ||| event == "NavigationProcessing"@ && name == "ОбработкаПерехода"@
    ||| event == "ActivationProcessing"@ && name == "ОбработкаАктивизации"@
    ||| event == "OnChangeAreaContent"@ && name == "ПриИзмененииСодержимогоОбласти"@
    ||| event == "OnPeriodOutput"@ && name == "ПриВыводеПериода"@
    ||| event == "OnActivateDate"@ && name == "ПриАктивизацииДаты"@
    ||| event == "OnCurrentParentChange"@ && name == "ПриСменеТекущегоРодителя"@
    ||| event == "OnCurrentRepresentationPeriodChange"@ && name == "ПриСменеТекущегоПериодаОтображения"@
    ||| event == "MultipleValueOpening"@ && name == "ОткрытиеМножественногоЗначения"@
    ||| event == "MultipleValuesDelete"@ && name == "УдалениеМножественныхЗначений"@
    ||| event == "BeforeStartEdit"@ && name == "ПередНачаломРедактирования"@
    ||| event == "BeforeStartQuickEdit"@ && name == "ПередНачаломБыстрогоРедактирования"@
    ||| event == "BeforeCreate"@ && name == "ПередСозданием"@
    ||| event == "BeforeDelete"@ && name == "ПередУдалением"@
    ||| event == "BeforeExecute"@ && name == "ПередВыполнением"@
    ||| event == "CommandGenerateProcessing"@ && name == "ОбработкаФормированияКоманд"@
    ||| event == "OnMainServerAvailabilityChange"@ && name == "ПриИзмененииДоступностиОсновногоСервера"@
    ||| event == "OnClientApplicationSuspend"@ && name == "ПриЗасыпанииКлиентскогоПриложения"@
    ||| event == "OnClientApplicationResume"@ && name == "ПриПробужденииКлиентскогоПриложения"@
    ||| event == "OnReopenFromOtherServer"@ && name == "ПриПереоткрытииСДругогоСервера"@
    ||| event == "BeforeReopenFromOtherServer"@ && name == "ПередПереоткрытиемСДругогоСервера"@
    ||| event == "AddInDetachmentOnError"@ && name == "ОтключениеВнешнейКомпонентыПриОшибке"@
    ||| event == "OnChangeDisplaySettings"@ && name == "ПриИзмененииПараметровЭкрана"@
    ||| event == "CollaborationSystemUsersAutoComplete"@ && name == "АвтоПодборПользователейСистемыВзаимодействия"@
    ||| event == "CollaborationSystemUsersChoiceFormGetProcessing"@ && name == "ОбработкаПолученияФормыВыбораПользователейСистемыВзаимодействия"@
}

proof fn lemma_event_marks()
    ensures
        "Drag"@.len() == 4,
        "Click"@.len() == 5,
        "OnOpen"@.len() == 6,
        "OnOpen"@[0] == 'O',
        "Tuning"@.len() == 6,
        "Tuning"@[0] == 'T',
        "OnClose"@.len() == 7,
        "OnClose"@[6] == 'e',
        "Opening"@.len() == 7,
        "Opening"@[6] == 'g',
        "DragEnd"@.len() == 7,
        "DragEnd"@[6] == 'd',
        "OnClick"@.len() == 7,
        "OnClick"@[6] == 'k',
        "OnReopen"@.len() == 8,
        "OnReopen"@[4] == 'o',
        "OnChange"@.len() == 8,
        "OnChange"@[4] == 'a',
        "Clearing"@.len() == 8,
        "Clearing"@[4] == 'r',
        "Creating"@.len() == 8,
        "Creating"@[4] == 't',
        "Selection"@.len() == 9,
        "Selection"@[4] == 'c',
        "OnEditEnd"@.len() == 9,
        "OnEditEnd"@[4] == 'i',
        "DragStart"@.len() == 9,
        "DragStart"@[4] == 'S',
        "DragCheck"@.len() == 9,
        "DragCheck"@[4] == 'C',
        "AfterWrite"@.len() == 10,
        "AfterWrite"@[0] == 'A',
        "OnActivate"@.len() == 10,
        "OnActivate"@[0] == 'O',
        "BeforeClose"@.len() == 11,
        "BeforeClose"@[0] == 'B',
        "BeforeClose"@[6] == 'C',
        "BeforeWrite"@.len() == 11,
        "BeforeWrite"@[0] == 'B',
        "BeforeWrite"@[6] == 'W',
        "StartChoice"@.len() == 11,
        "StartChoice"@[0] == 'S',
        "StartChoice"@[6] == 'h',
        "TextEditEnd"@.len() == 11,
        "TextEditEnd"@[0] == 'T',
        "TextEditEnd"@[6] == 'i',
        "ValueChoice"@.len() == 11,
        "ValueChoice"@[0] == 'V',
        "ValueChoice"@[6] == 'h',
        "OnStartEdit"@.len() == 11,
        "OnStartEdit"@[0] == 'O',
        "OnStartEdit"@[6] == 't',
        "BeforePrint"@.len() == 11,
        "BeforePrint"@[0] == 'B',
        "BeforePrint"@[6] == 'P',
        "AutoComplete"@.len() == 12,
        "AutoComplete"@[6] == 'm',
        "BeforeAddRow"@.len() == 12,
        "BeforeAddRow"@[6] == 'A',
        "BeforeExpand"@.len() == 12,
        "BeforeExpand"@[6] == 'E',
        "BeforeCreate"@.len() == 12,
        "BeforeCreate"@[6] == 'C',
        "BeforeDelete"@.len() == 12,
        "BeforeDelete"@[6] == 'D',
        "ExternalEvent"@.len() == 13,
        "ExternalEvent"@[7] == 'l',
        "URLProcessing"@.len() == 13,
        "URLProcessing"@[7] == 'e',
        "BeforeEditEnd"@.len() == 13,
        "BeforeEditEnd"@[7] == 'd',
        "OnActivateRow"@.len() == 13,
        "OnActivateRow"@[7] == 'a',
        "BeforeExecute"@.len() == 13,
        "BeforeExecute"@[7] == 'x',
        "OnReadAtServer"@.len() == 14,
        "OnReadAtServer"@[12] == 'e',
        "EditTextChange"@.len() == 14,
        "EditTextChange"@[12] == 'g',
        "AfterDeleteRow"@.len() == 14,
        "AfterDeleteRow"@[12] == 'o',
        "OnActivateCell"@.len() == 14,
        "OnActivateCell"@[12] == 'l',
        "BeforeCollapse"@.len() == 14,
        "BeforeCollapse"@[12] == 's',
        "OnPeriodOutput"@.len() == 14,
        "OnPeriodOutput"@[12] == 'u',
        "OnActivateDate"@.len() == 14,
        "OnActivateDate"@[12] == 't',
        "OnWriteAtServer"@.len() == 15,
        "OnWriteAtServer"@[6] == 'e',
        "StartListChoice"@.len() == 15,
        "StartListChoice"@[6] == 'i',
        "BeforeRowChange"@.len() == 15,
        "BeforeRowChange"@[6] == 'R',
        "BeforeDeleteRow"@.len() == 15,
        "BeforeDeleteRow"@[6] == 'D',
        "OnActivateField"@.len() == 15,
        "OnActivateField"@[6] == 'v',
        "BeforeStartEdit"@.len() == 15,
        "BeforeStartEdit"@[6] == 'S',
        "OnCreateAtServer"@.len() == 16,
        "OnCreateAtServer"@[1] == 'n',
        "ChoiceProcessing"@.len() == 16,
        "ChoiceProcessing"@[1] == 'h',
        "DetailProcessing"@.len() == 16,
        "DetailProcessing"@[1] == 'e',
        "DocumentComplete"@.len() == 16,
        "DocumentComplete"@[1] == 'o',
        "URLGetProcessing"@.len() == 16,
        "URLGetProcessing"@[1] == 'R',
        "OnGetDataAtServer"@.len() == 17,
        "AfterWriteAtServer"@.len() == 18,
        "AfterWriteAtServer"@[0] == 'A',
        "NewWriteProcessing"@.len() == 18,
        "NewWriteProcessing"@[0] == 'N',
        "BeforeWriteAtServer"@.len() == 19,
        "BeforeWriteAtServer"@[3] == 'o',
        "OnCurrentPageChange"@.len() == 19,
        "OnCurrentPageChange"@[3] == 'u',
        "OnChangeAreaContent"@.len() == 19,
        "OnChangeAreaContent"@[3] == 'h',
        "URLListGetProcessing"@.len() == 20,
        "URLListGetProcessing"@[0] == 'U',
        "URLListGetProcessing"@[13] == 'c',
        "NavigationProcessing"@.len() == 20,
        "NavigationProcessing"@[0] == 'N',
        "NavigationProcessing"@[13] == 'c',
        "ActivationProcessing"@.len() == 20,
        "ActivationProcessing"@[0] == 'A',
        "ActivationProcessing"@[13] == 'c',
        "MultipleValueOpening"@.len() == 20,
        "MultipleValueOpening"@[0] == 'M',
        "MultipleValueOpening"@[13] == 'O',
        "MultipleValuesDelete"@.len() == 20,
        "MultipleValuesDelete"@[0] == 'M',
        "MultipleValuesDelete"@[13] == 's',
        "BeforeStartQuickEdit"@.len() == 20,
        "BeforeStartQuickEdit"@[0] == 'B',
        "BeforeStartQuickEdit"@[13] == 'i',
        "OnSaveVariantAtServer"@.len() == 21,
        "OnSaveVariantAtServer"@[2] == 'S',
        "OnLoadVariantAtServer"@.len() == 21,
        "OnLoadVariantAtServer"@[2] == 'L',
        "OnCurrentParentChange"@.len() == 21,
        "OnCurrentParentChange"@[2] == 'C',
        "NotificationProcessing"@.len() == 22,
        "NotificationProcessing"@[0] == 'N',
        "AddInDetachmentOnError"@.len() == 22,
        "AddInDetachmentOnError"@[0] == 'A',
        "OnReopenFromOtherServer"@.len() == 23,
        "OnReopenFromOtherServer"@[2] == 'R',
        "OnChangeDisplaySettings"@.len() == 23,
        "OnChangeDisplaySettings"@[2] == 'C',
        "RefreshRequestProcessing"@.len() == 24,
        "BeforeLoadVariantAtServer"@.len() == 25,
        "BeforeLoadVariantAtServer"@[0] == 'B',
        "CommandGenerateProcessing"@.len() == 25,
        "CommandGenerateProcessing"@[0] == 'C',
        "OnClientApplicationResume"@.len() == 25,
        "OnClientApplicationResume"@[0] == 'O',
        "AdditionalDetailProcessing"@.len() == 26,
        "AdditionalDetailProcessing"@[2] == 'd',
        "OnSaveUserSettingsAtServer"@.len() == 26,
        "OnSaveUserSettingsAtServer"@[2] == 'S',
        "OnLoadUserSettingsAtServer"@.len() == 26,
        "OnLoadUserSettingsAtServer"@[2] == 'L',
        "OnClientApplicationSuspend"@.len() == 26,
        "OnClientApplicationSuspend"@[2] == 'C',
        "FillCheckProcessingAtServer"@.len() == 27,
        "FillCheckProcessingAtServer"@[0] == 'F',
        "BeforeReopenFromOtherServer"@.len() == 27,
        "BeforeReopenFromOtherServer"@[0] == 'B',
        "OnSaveDataInSettingsAtServer"@.len() == 28,
        "OnLoadDataFromSettingsAtServer"@.len() == 30,
        "OnLoadDataFromSettingsAtServer"@[2] == 'L',
        "OnUpdateUserSettingSetAtServer"@.len() == 30,
        "OnUpdateUserSettingSetAtServer"@[2] == 'U',
        "BeforeLoadUserSettingsAtServer"@.len() == 30,
        "BeforeLoadUserSettingsAtServer"@[2] == 'f',
        "OnMainServerAvailabilityChange"@.len() == 30,
        "OnMainServerAvailabilityChange"@[2] == 'M',
        "BeforeLoadDataFromSettingsAtServer"@.len() == 34,
        "OnCurrentRepresentationPeriodChange"@.len() == 35,
        "CollaborationSystemUsersAutoComplete"@.len() == 36,
        "CollaborationSystemUsersChoiceFormGetProcessing"@.len() == 47,
{
    reveal_strlit("Drag");
    reveal_strlit("Click");
    reveal_strlit("OnOpen");
    reveal_strlit("Tuning");
    reveal_strlit("OnClose");
    reveal_strlit("Opening");
    reveal_strlit("DragEnd");
    reveal_strlit("OnClick");
    reveal_strlit("OnReopen");
    reveal_strlit("OnChange");
    reveal_strlit("Clearing");
    reveal_strlit("Creating");
    reveal_strlit("Selection");
    reveal_strlit("OnEditEnd");
    reveal_strlit("DragStart");
    reveal_strlit("DragCheck");
    reveal_strlit("AfterWrite");
    reveal_strlit("OnActivate");
    reveal_strlit("BeforeClose");
    reveal_strlit("BeforeWrite");
    reveal_strlit("StartChoice");
    reveal_strlit("TextEditEnd");
    reveal_strlit("ValueChoice");
    reveal_strlit("OnStartEdit");
    reveal_strlit("BeforePrint");
    reveal_strlit("AutoComplete");
    reveal_strlit("BeforeAddRow");
    reveal_strlit("BeforeExpand");
    reveal_strlit("BeforeCreate");
    reveal_strlit("BeforeDelete");
    reveal_strlit("ExternalEvent");
    reveal_strlit("URLProcessing");
    reveal_strlit("BeforeEditEnd");
    reveal_strlit("OnActivateRow");
    reveal_strlit("BeforeExecute");
    reveal_strlit("OnReadAtServer");
    reveal_strlit("EditTextChange");
    reveal_strlit("AfterDeleteRow");
    reveal_strlit("OnActivateCell");
    reveal_strlit("BeforeCollapse");
    reveal_strlit("OnPeriodOutput");
    reveal_strlit("OnActivateDate");
    reveal_strlit("OnWriteAtServer");
    reveal_strlit("StartListChoice");
    reveal_strlit("BeforeRowChange");
    reveal_strlit("BeforeDeleteRow");
    reveal_strlit("OnActivateField");
    reveal_strlit("BeforeStartEdit");
    reveal_strlit("OnCreateAtServer");
    reveal_strlit("ChoiceProcessing");
    reveal_strlit("DetailProcessing");
    reveal_strlit("DocumentComplete");
    reveal_strlit("URLGetProcessing");
    reveal_strlit("OnGetDataAtServer");
    reveal_strlit("AfterWriteAtServer");
    reveal_strlit("NewWriteProcessing");
    reveal_strlit("BeforeWriteAtServer");
    reveal_strlit("OnCurrentPageChange");
    reveal_strlit("OnChangeAreaContent");
    reveal_strlit("URLListGetProcessing");
    reveal_strlit("NavigationProcessing");
    reveal_strlit("ActivationProcessing");
    reveal_strlit("MultipleValueOpening");
    reveal_strlit("MultipleValuesDelete");
    reveal_strlit("BeforeStartQuickEdit");
    reveal_strlit("OnSaveVariantAtServer");
    reveal_strlit("OnLoadVariantAtServer");
    reveal_strlit("OnCurrentParentChange");
    reveal_strlit("NotificationProcessing");
    reveal_strlit("AddInDetachmentOnError");
    reveal_strlit("OnReopenFromOtherServer");
    reveal_strlit("OnChangeDisplaySettings");
    reveal_strlit("RefreshRequestProcessing");
    reveal_strlit("BeforeLoadVariantAtServer");
    reveal_strlit("CommandGenerateProcessing");
    reveal_strlit("OnClientApplicationResume");
    reveal_strlit("AdditionalDetailProcessing");
    reveal_strlit("OnSaveUserSettingsAtServer");
    reveal_strlit("OnLoadUserSettingsAtServer");
    reveal_strlit("OnClientApplicationSuspend");
    reveal_strlit("FillCheckProcessingAtServer");
    reveal_strlit("BeforeReopenFromOtherServer");
    reveal_strlit("OnSaveDataInSettingsAtServer");
    reveal_strlit("OnLoadDataFromSettingsAtServer");
    reveal_strlit("OnUpdateUserSettingSetAtServer");
    reveal_strlit("BeforeLoadUserSettingsAtServer");
    reveal_strlit("OnMainServerAvailabilityChange");
    reveal_strlit("BeforeLoadDataFromSettingsAtServer");
    reveal_strlit("OnCurrentRepresentationPeriodChange");
    reveal_strlit("CollaborationSystemUsersAutoComplete");
    reveal_strlit("CollaborationSystemUsersChoiceFormGetProcessing");
}

/// Every event of the dictionary is translated by it, and no other name is translated.
pub proof fn law_dictionary(event: Seq<char>, name: Seq<char>)
    ensures
        translation(event) == Some(name) <==> is_named(event, name),
        (forall|n: Seq<char>| !#[trigger] is_named(event, n)) ==> russian(event) == event,
{
    if is_named(event, name) {
        lemma_event_marks();
    }
    if translation(event) is Some {
        assert(is_named(event, translation(event)->0));
    }
}

/// Whether a text begins with these three characters.
pub open spec fn begins(s: Seq<char>, a: char, b: char, c: char) -> bool {
    s.len() > 2 && s[0] == a && s[1] == b && s[2] == c
}

/// Whether a text ends with these three characters.
pub open spec fn ends(s: Seq<char>, a: char, b: char, c: char) -> bool {
    s.len() > 2 && s[s.len() - 3] == a && s[s.len() - 2] == b && s[s.len() - 1] == c
}

/// Whether the parts of two names correspond: `On` to `При`, `Before` to `Перед`, `After`
/// to `После` at the beginning, `AtServer` to `НаСервере` at the end.
pub open spec fn parts_correspond(event: Seq<char>, name: Seq<char>) -> bool {
    &&& (event.len() > 1 && event[0] == 'O' && event[1] == 'n') == begins(name, 'П', 'р', 'и')
    &&& begins(event, 'B', 'e', 'f') == (begins(name, 'П', 'е', 'р') && name.len() > 4 && name[3]
        == 'е' && name[4] == 'д')
    &&& begins(event, 'A', 'f', 't') == begins(name, 'П', 'о', 'с')
    &&& (ends(event, 'v', 'e', 'r') && event.len() > 7 && event[event.len() - 8] == 'A'
        && event[event.len() - 7] == 't') == ends(name, 'е', 'р', 'е')
}

proof fn lemma_form_itself_parts(event: Seq<char>)
    ensures
        form_itself_event(event) is Some ==> parts_correspond(event, form_itself_event(event)->0),
{
    reveal_strlit("OnOpen");
    reveal_strlit("ПриОткрытии");
    reveal_strlit("OnClose");
    reveal_strlit("ПриЗакрытии");
    reveal_strlit("BeforeClose");
    reveal_strlit("ПередЗакрытием");
    reveal_strlit("OnCreateAtServer");
    reveal_strlit("ПриСозданииНаСервере");
    reveal_strlit("OnReadAtServer");
    reveal_strlit("ПриЧтенииНаСервере");
    reveal_strlit("BeforeWrite");
    reveal_strlit("ПередЗаписью");
    reveal_strlit("BeforeWriteAtServer");
    reveal_strlit("ПередЗаписьюНаСервере");
    reveal_strlit("OnWriteAtServer");
    reveal_strlit("ПриЗаписиНаСервере");
    reveal_strlit("AfterWrite");
    reveal_strlit("ПослеЗаписи");
    reveal_strlit("AfterWriteAtServer");
    reveal_strlit("ПослеЗаписиНаСервере");
    reveal_strlit("FillCheckProcessingAtServer");
    reveal_strlit("ОбработкаПроверкиЗаполненияНаСервере");
    reveal_strlit("NotificationProcessing");
    reveal_strlit("ОбработкаОповещения");
    reveal_strlit("ChoiceProcessing");
    reveal_strlit("ОбработкаВыбора");
    reveal_strlit("NewWriteProcessing");
    reveal_strlit("ОбработкаЗаписиНового");
    reveal_strlit("OnReopen");
    reveal_strlit("ПриПовторномОткрытии");
    reveal_strlit("ExternalEvent");
    reveal_strlit("ВнешнееСобытие");
    reveal_strlit("URLProcessing");
    reveal_strlit("ОбработкаНавигационнойСсылки");
    reveal_strlit("OnSaveDataInSettingsAtServer");
    reveal_strlit("ПриСохраненииДанныхВНастройкахНаСервере");
    reveal_strlit("OnLoadDataFromSettingsAtServer");
    reveal_strlit("ПриЗагрузкеДанныхИзНастроекНаСервере");
    reveal_strlit("BeforeLoadDataFromSettingsAtServer");
    reveal_strlit("ПередЗагрузкойДанныхИзНастроекНаСервере");
}

proof fn lemma_form_element_parts(event: Seq<char>)
    ensures
        form_element_event(event) is Some ==> parts_correspond(event, form_element_event(event)->0),
{
    reveal_strlit("OnChange");
    reveal_strlit("ПриИзменении");
    reveal_strlit("StartChoice");
    reveal_strlit("НачалоВыбора");
    reveal_strlit("StartListChoice");
    reveal_strlit("НачалоВыбораИзСписка");
    reveal_strlit("Clearing");
    reveal_strlit("Очистка");
    reveal_strlit("Opening");
    reveal_strlit("Открытие");
    reveal_strlit("AutoComplete");
    reveal_strlit("АвтоПодбор");
    reveal_strlit("TextEditEnd");
    reveal_strlit("ОкончаниеВводаТекста");
    reveal_strlit("EditTextChange");
    reveal_strlit("ИзменениеТекстаРедактирования");
    reveal_strlit("Click");
    reveal_strlit("Нажатие");
    reveal_strlit("Selection");
    reveal_strlit("Выбор");
    reveal_strlit("ValueChoice");
    reveal_strlit("ВыборЗначения");
    reveal_strlit("BeforeAddRow");
    reveal_strlit("ПередНачаломДобавления");
    reveal_strlit("BeforeRowChange");
    reveal_strlit("ПередНачаломИзменения");
    reveal_strlit("BeforeDeleteRow");
    reveal_strlit("ПередУдалением");
    reveal_strlit("AfterDeleteRow");
    reveal_strlit("ПослеУдаления");
    reveal_strlit("OnStartEdit");
    reveal_strlit("ПриНачалеРедактирования");
    reveal_strlit("OnEditEnd");
    reveal_strlit("ПриОкончанииРедактирования");
    reveal_strlit("BeforeEditEnd");
    reveal_strlit("ПередОкончаниемРедактирования");
    reveal_strlit("OnActivateRow");
    reveal_strlit("ПриАктивизацииСтроки");
    reveal_strlit("OnActivateCell");
    reveal_strlit("ПриАктивизацииЯчейки");
    reveal_strlit("OnActivateField");
    reveal_strlit("ПриАктивизацииПоля");
    reveal_strlit("OnActivate");
    reveal_strlit("ПриАктивизации");
    reveal_strlit("Drag");
    reveal_strlit("Перетаскивание");
    reveal_strlit("DragStart");
    reveal_strlit("НачалоПеретаскивания");
    reveal_strlit("DragEnd");
    reveal_strlit("ОкончаниеПеретаскивания");
    reveal_strlit("DragCheck");
    reveal_strlit("ПроверкаПеретаскивания");
    reveal_strlit("BeforeExpand");
    reveal_strlit("ПередРазворачиванием");
    reveal_strlit("BeforeCollapse");
    reveal_strlit("ПередСворачиванием");
    reveal_strlit("OnCurrentPageChange");
    reveal_strlit("ПриСменеСтраницы");
    reveal_strlit("OnGetDataAtServer");
    reveal_strlit("ПриПолученииДанныхНаСервере");
    reveal_strlit("DetailProcessing");
    reveal_strlit("ОбработкаРасшифровки");
    reveal_strlit("AdditionalDetailProcessing");
    reveal_strlit("ОбработкаДополнительнойРасшифровки");
    reveal_strlit("DocumentComplete");
    reveal_strlit("ДокументСформирован");
    reveal_strlit("OnClick");
    reveal_strlit("ПриНажатии");
    reveal_strlit("Creating");
    reveal_strlit("Создание");
}

proof fn lemma_report_form_parts(event: Seq<char>)
    ensures
        report_form_event(event) is Some ==> parts_correspond(event, report_form_event(event)->0),
{
    reveal_strlit("OnUpdateUserSettingSetAtServer");
    reveal_strlit("ПриОбновленииСоставаПользовательскихНастроекНаСервере");
    reveal_strlit("OnSaveUserSettingsAtServer");
    reveal_strlit("ПриСохраненииПользовательскихНастроекНаСервере");
    reveal_strlit("OnLoadUserSettingsAtServer");
    reveal_strlit("ПриЗагрузкеПользовательскихНастроекНаСервере");
    reveal_strlit("BeforeLoadUserSettingsAtServer");
    reveal_strlit("ПередЗагрузкойПользовательскихНастроекНаСервере");
    reveal_strlit("OnSaveVariantAtServer");
    reveal_strlit("ПриСохраненииВариантаНаСервере");
    reveal_strlit("OnLoadVariantAtServer");
    reveal_strlit("ПриЗагрузкеВариантаНаСервере");
    reveal_strlit("BeforeLoadVariantAtServer");
    reveal_strlit("ПередЗагрузкойВариантаНаСервере");
    reveal_strlit("BeforePrint");
    reveal_strlit("ПередПечатью");
}

proof fn lemma_rare_parts(event: Seq<char>)
    ensures
        rare_event(event) is Some ==> parts_correspond(event, rare_event(event)->0),
{
    reveal_strlit("Tuning");
    reveal_strlit("Регулирование");
    reveal_strlit("RefreshRequestProcessing");
    reveal_strlit("ОбработкаЗапросаОбновления");
    reveal_strlit("URLGetProcessing");
    reveal_strlit("ОбработкаПолученияНавигационнойСсылки");
    reveal_strlit("URLListGetProcessing");
    reveal_strlit("ОбработкаПолученияСпискаНавигационныхСсылок");
    reveal_strlit("NavigationProcessing");
    reveal_strlit("ОбработкаПерехода");
    reveal_strlit("ActivationProcessing");
    reveal_strlit("ОбработкаАктивизации");
    reveal_strlit("OnChangeAreaContent");
    reveal_strlit("ПриИзмененииСодержимогоОбласти");
    reveal_strlit("OnPeriodOutput");
    reveal_strlit("ПриВыводеПериода");
    reveal_strlit("OnActivateDate");
    reveal_strlit("ПриАктивизацииДаты");
    reveal_strlit("OnCurrentParentChange");
    reveal_strlit("ПриСменеТекущегоРодителя");
    reveal_strlit("OnCurrentRepresentationPeriodChange");
    reveal_strlit("ПриСменеТекущегоПериодаОтображения");
    reveal_strlit("MultipleValueOpening");
    reveal_strlit("ОткрытиеМножественногоЗначения");
    reveal_strlit("MultipleValuesDelete");
    reveal_strlit("УдалениеМножественныхЗначений");
    reveal_strlit("BeforeStartEdit");
    reveal_strlit("ПередНачаломРедактирования");
    reveal_strlit("BeforeStartQuickEdit");
    reveal_strlit("ПередНачаломБыстрогоРедактирования");
    reveal_strlit("BeforeCreate");
    reveal_strlit("ПередСозданием");
    reveal_strlit("BeforeDelete");
    reveal_strlit("ПередУдалением");
    reveal_strlit("BeforeExecute");
    reveal_strlit("ПередВыполнением");
    reveal_strlit("CommandGenerateProcessing");
    reveal_strlit("ОбработкаФормированияКоманд");
    reveal_strlit("OnMainServerAvailabilityChange");
    reveal_strlit("ПриИзмененииДоступностиОсновногоСервера");
    reveal_strlit("OnClientApplicationSuspend");
    reveal_strlit("ПриЗасыпанииКлиентскогоПриложения");
    reveal_strlit("OnClientApplicationResume");
    reveal_strlit("ПриПробужденииКлиентскогоПриложения");
    reveal_strlit("OnReopenFromOtherServer");
    reveal_strlit("ПриПереоткрытииСДругогоСервера");
    reveal_strlit("BeforeReopenFromOtherServer");
    reveal_strlit("ПередПереоткрытиемСДругогоСервера");
    reveal_strlit("AddInDetachmentOnError");
    reveal_strlit("ОтключениеВнешнейКомпонентыПриОшибке");
    reveal_strlit("OnChangeDisplaySettings");
    reveal_strlit("ПриИзмененииПараметровЭкрана");
    reveal_strlit("CollaborationSystemUsersAutoComplete");
    reveal_strlit("АвтоПодборПользователейСистемыВзаимодействия");
    reveal_strlit("CollaborationSystemUsersChoiceFormGetProcessing");
    reveal_strlit("ОбработкаПолученияФормыВыбораПользователейСистемыВзаимодействия");
}

/// A translated name corresponds to the name of the event part by part.
pub proof fn law_parts_of_names(event: Seq<char>)
    requires
        translation(event) is Some,
    ensures
        parts_correspond(event, russian(event)),
{
    lemma_form_itself_parts(event);
    lemma_form_element_parts(event);
    lemma_report_form_parts(event);
    lemma_rare_parts(event);
}

} // verus!
