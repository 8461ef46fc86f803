//! Owner of a module by its path.

use vstd::prelude::*;

use crate::text::{
    chars_of, join, law_split_joins_back, lemma_split_around, same_text, split, split_chars, texts,
};

verus! {

/// Type of the objects whose modules stand in a folder of this name.
pub open spec fn module_folder(s: Seq<char>) -> Option<Seq<char>> {
    if s == "Catalogs"@ {
        Some("Catalog"@)
    } else if s == "Documents"@ {
        Some("Document"@)
    } else if s == "DataProcessors"@ {
        Some("DataProcessor"@)
    } else if s == "Reports"@ {
        Some("Report"@)
    } else if s == "CommonModules"@ {
        Some("CommonModule"@)
    } else if s == "Enums"@ {
        Some("Enum"@)
    } else if s == "Constants"@ {
        Some("Constant"@)
    } else if s == "InformationRegisters"@ {
        Some("InformationRegister"@)
    } else if s == "AccumulationRegisters"@ {
        Some("AccumulationRegister"@)
    } else if s == "AccountingRegisters"@ {
        Some("AccountingRegister"@)
    } else if s == "CalculationRegisters"@ {
        Some("CalculationRegister"@)
    } else if s == "ChartsOfAccounts"@ {
        Some("ChartOfAccounts"@)
    } else if s == "ChartsOfCharacteristicTypes"@ {
        Some("ChartOfCharacteristicTypes"@)
    } else if s == "ChartsOfCalculationTypes"@ {
        Some("ChartOfCalculationTypes"@)
    } else if s == "ExchangePlans"@ {
        Some("ExchangePlan"@)
    } else if s == "BusinessProcesses"@ {
        Some("BusinessProcess"@)
    } else if s == "Tasks"@ {
        Some("Task"@)
    } else if s == "CommonForms"@ {
        Some("CommonForm"@)
    } else if s == "CommonCommands"@ {
        Some("CommonCommand"@)
    } else if s == "WebServices"@ {
        Some("WebService"@)
    } else if s == "HTTPServices"@ {
        Some("HTTPService"@)
    } else if s == "DocumentJournals"@ {
        Some("DocumentJournal"@)
    } else if s == "Sequences"@ {
        Some("Sequence"@)
    } else if s == "SettingsStorages"@ {
        Some("SettingsStorage"@)
    } else if s == "ExternalDataSources"@ {
        Some("ExternalDataSource"@)
    } else if s == "FilterCriteria"@ {
        Some("FilterCriterion"@)
    } else {
        None
    }
}

/// Path with `/` as the only separator.
pub open spec fn with_slashes(path: Seq<char>) -> Seq<char> {
    path.map_values(|c: char| if c == '\\' { '/' } else { c })
}

/// Names that make up a path.
pub open spec fn path_names(path: Seq<char>) -> Seq<Seq<char>> {
    split(with_slashes(path), '/')
}

/// Type and name of the owner: the first folder of objects at or after position `i`
/// and the name right after it.
pub open spec fn owner_from(names: Seq<Seq<char>>, i: int) -> Option<(Seq<char>, Seq<char>)>
    decreases names.len() - i,
{
    if i < 0 || i + 1 >= names.len() {
        None
    } else {
        match module_folder(names[i]) {
            Some(kind) => Some((kind, names[i + 1])),
            None => owner_from(names, i + 1),
        }
    }
}

/// Type and name of the owner of a module.
pub open spec fn module_owner(path: Seq<char>) -> Option<(Seq<char>, Seq<char>)> {
    owner_from(path_names(path), 0)
}

/// Type of the objects whose modules stand in a folder of this name.
pub fn folder_type(s: &str) -> (r: Option<&'static str>)
    ensures
        match r {
            Some(kind) => module_folder(s@) == Some(kind@),
            None => module_folder(s@) is None,
        },
{
    if same_text(s, "Catalogs") {
        Some("Catalog")
    } else if same_text(s, "Documents") {
        Some("Document")
    } else if same_text(s, "DataProcessors") {
        Some("DataProcessor")
    } else if same_text(s, "Reports") {
        Some("Report")
    } else if same_text(s, "CommonModules") {
        Some("CommonModule")
    } else if same_text(s, "Enums") {
        Some("Enum")
    } else if same_text(s, "Constants") {
        Some("Constant")
    } else if same_text(s, "InformationRegisters") {
        Some("InformationRegister")
    } else if same_text(s, "AccumulationRegisters") {
        Some("AccumulationRegister")
    } else if same_text(s, "AccountingRegisters") {
        Some("AccountingRegister")
    } else if same_text(s, "CalculationRegisters") {
        Some("CalculationRegister")
    } else if same_text(s, "ChartsOfAccounts") {
        Some("ChartOfAccounts")
    } else if same_text(s, "ChartsOfCharacteristicTypes") {
        Some("ChartOfCharacteristicTypes")
    } else if same_text(s, "ChartsOfCalculationTypes") {
        Some("ChartOfCalculationTypes")
    } else if same_text(s, "ExchangePlans") {
        Some("ExchangePlan")
    } else if same_text(s, "BusinessProcesses") {
        Some("BusinessProcess")
    } else if same_text(s, "Tasks") {
        Some("Task")
    } else if same_text(s, "CommonForms") {
        Some("CommonForm")
    } else if same_text(s, "CommonCommands") {
        Some("CommonCommand")
    } else if same_text(s, "WebServices") {
        Some("WebService")
    } else if same_text(s, "HTTPServices") {
        Some("HTTPService")
    } else if same_text(s, "DocumentJournals") {
        Some("DocumentJournal")
    } else if same_text(s, "Sequences") {
        Some("Sequence")
    } else if same_text(s, "SettingsStorages") {
        Some("SettingsStorage")
    } else if same_text(s, "ExternalDataSources") {
        Some("ExternalDataSource")
    } else if same_text(s, "FilterCriteria") {
        Some("FilterCriterion")
    } else {
        None
    }
}

/// Path with `/` as the only separator.
pub fn forward_slashes(path: &str) -> (r: String)
    ensures
        r@ == with_slashes(path@),
{
    let chars = chars_of(path);
    let mut r = String::new();
    let n: usize = chars.len();
    let mut i: usize = 0;
    while i < n
        invariant
            i <= n,
            n == chars@.len(),
            chars@ == path@,
            r@ == with_slashes(path@).take(i as int),
        decreases n - i,
    {
        if chars[i] == '\\' {
            r.push('/');
        } else {
            r.push(chars[i]);
        }
        i = i + 1;
        assert(r@ == with_slashes(path@).take(i as int));
    }
    assert(r@ == with_slashes(path@));
    r
}

/// Names that make up a path, `/` and `\\` both separate.
pub fn split_path(path: &str) -> (r: Vec<String>)
    ensures
        texts(r@) == path_names(path@),
{
    let chars = chars_of(forward_slashes(path).as_str());
    split_chars(chars.as_slice(), '/')
}

/// Type and name of the object that a module belongs to, by the path of the module in
/// the repository. Modules of forms belong to the object of the form, and folders
/// before the folder of objects do not matter. `None` for a module outside the folders
/// of objects.
pub fn object_from_module_path(path: &str) -> (r: Option<(&'static str, String)>)
    ensures
        match r {
            Some((kind, name)) => module_owner(path@) == Some((kind@, name@)),
            None => module_owner(path@) is None,
        },
{
    let names = split_path(path);
    let ghost t = texts(names@);
    let n: usize = names.len();
    let mut i: usize = 0;
    while n - i > 1
        invariant
            n == names@.len(),
            t == texts(names@),
            t == path_names(path@),
            i <= n,
            owner_from(t, 0) == owner_from(t, i as int),
        decreases n - i,
    {
        assert(t[i as int] == names@[i as int]@);
        match folder_type(names[i].as_str()) {
            Some(kind) => {
                assert(t[i + 1] == names@[i + 1]@);
                return Some((kind, names[i + 1].clone()));
            },
            None => {},
        }
        i = i + 1;
    }
    None
}

proof fn lemma_owner_behind(a: Seq<Seq<char>>, b: Seq<Seq<char>>, i: int)
    requires
        0 <= i <= a.len(),
        forall|k: int| 0 <= k < a.len() ==> module_folder(#[trigger] a[k]) is None,
    ensures
        owner_from(a + b, i) == owner_from(b, 0),
    decreases a.len() - i,
{
    if i < a.len() {
        lemma_owner_behind(a, b, i + 1);
        assert((a + b)[i] == a[i]);
        if i + 1 >= (a + b).len() {
            assert(b.len() == 0);
        }
    } else {
        lemma_owner_shift(a, b, 0);
    }
}

proof fn lemma_owner_shift(a: Seq<Seq<char>>, b: Seq<Seq<char>>, i: int)
    requires
        0 <= i <= b.len(),
    ensures
        owner_from(a + b, a.len() + i) == owner_from(b, i),
    decreases b.len() - i,
{
    if i < b.len() {
        lemma_owner_shift(a, b, i + 1);
        assert((a + b)[a.len() + i] == b[i]);
    }
}

proof fn lemma_owner_kept(a: Seq<Seq<char>>, b: Seq<Seq<char>>, i: int)
    requires
        0 <= i,
        owner_from(a, i) is Some,
    ensures
        owner_from(a + b, i) == owner_from(a, i),
    decreases a.len() - i,
{
    assert((a + b)[i] == a[i]);
    assert((a + b)[i + 1] == a[i + 1]);
    if module_folder(a[i]) is None {
        lemma_owner_kept(a, b, i + 1);
    }
}

proof fn lemma_path_names_around(a: Seq<char>, b: Seq<char>)
    ensures
        path_names(a + seq!['/'] + b) == path_names(a) + path_names(b),
{
    lemma_split_around(with_slashes(a), with_slashes(b), '/');
    assert(with_slashes(a + seq!['/'] + b) == with_slashes(a) + seq!['/'] + with_slashes(b));
}

/// Folders before the folder of objects do not matter: a path inside a configuration
/// has the same owner in a repository that keeps the configuration in a subfolder.
pub proof fn law_owner_ignores_prefix(prefix: Seq<char>, path: Seq<char>)
    requires
        forall|k: int|
            0 <= k < path_names(prefix).len() ==> module_folder(
                #[trigger] path_names(prefix)[k],
            ) is None,
    ensures
        module_owner(prefix + seq!['/'] + path) == module_owner(path),
{
    lemma_path_names_around(prefix, path);
    lemma_owner_behind(path_names(prefix), path_names(path), 0);
}

/// What follows the name of the owner does not matter: a module of a form or of a
/// command belongs to the same object as the module of the object itself.
pub proof fn law_owner_ignores_rest(path: Seq<char>, rest: Seq<char>)
    requires
        module_owner(path) is Some,
    ensures
        module_owner(path + seq!['/'] + rest) == module_owner(path),
{
    lemma_path_names_around(path, rest);
    lemma_owner_kept(path_names(path), path_names(rest), 0);
}

/// Whether a text is a type of objects whose folder has the same name with an `s` behind
/// it.
pub open spec fn is_regular_kind(kind: Seq<char>) -> bool {
    ||| kind == "Catalog"@
    ||| kind == "Document"@
    ||| kind == "DataProcessor"@
    ||| kind == "Report"@
    ||| kind == "CommonModule"@
    ||| kind == "Enum"@
    ||| kind == "Constant"@
    ||| kind == "InformationRegister"@
    ||| kind == "AccumulationRegister"@
    ||| kind == "AccountingRegister"@
    ||| kind == "CalculationRegister"@
    ||| kind == "ExchangePlan"@
    ||| kind == "Task"@
    ||| kind == "CommonForm"@
    ||| kind == "CommonCommand"@
    ||| kind == "WebService"@
    ||| kind == "HTTPService"@
    ||| kind == "DocumentJournal"@
    ||| kind == "Sequence"@
    ||| kind == "SettingsStorage"@
    ||| kind == "ExternalDataSource"@
}

/// Whether a text is what a chart holds.
pub open spec fn is_charted(s: Seq<char>) -> bool {
    s == "Accounts"@ || s == "CharacteristicTypes"@ || s == "CalculationTypes"@
}

/// Whether a folder is the plural of a type: with an `s` behind it, behind the word for a
/// chart, or in one of the two forms of their own.
pub open spec fn is_plural(folder: Seq<char>, kind: Seq<char>) -> bool {
    ||| is_regular_kind(kind) && folder == kind + "s"@
    ||| exists|of: Seq<char>| #[trigger]
        is_charted(of) && kind == "ChartOf"@ + of && folder == "ChartsOf"@ + of
    ||| kind == "BusinessProcess"@ && folder == "BusinessProcesses"@
    ||| kind == "FilterCriterion"@ && folder == "FilterCriteria"@
}

/// A folder of objects is the plural of their type; no other folder is one.
pub proof fn law_folder_is_plural(folder: Seq<char>)
    requires
        module_folder(folder) is Some,
    ensures
        is_plural(folder, module_folder(folder)->0),
{
    lemma_plurals();
    assert(is_charted("Accounts"@) && is_charted("CharacteristicTypes"@) && is_charted(
        "CalculationTypes"@,
    ));
}

/// Every type has its folder: its plural leads back to it.
pub proof fn law_kind_has_folder(folder: Seq<char>, kind: Seq<char>)
    requires
        is_plural(folder, kind),
    ensures
        module_folder(folder) == Some(kind),
{
    lemma_plurals();
    lemma_folders_differ();
}


proof fn lemma_plurals()
    ensures
        "Catalogs"@ == "Catalog"@ + "s"@,
        "Documents"@ == "Document"@ + "s"@,
        "DataProcessors"@ == "DataProcessor"@ + "s"@,
        "Reports"@ == "Report"@ + "s"@,
        "CommonModules"@ == "CommonModule"@ + "s"@,
        "Enums"@ == "Enum"@ + "s"@,
        "Constants"@ == "Constant"@ + "s"@,
        "InformationRegisters"@ == "InformationRegister"@ + "s"@,
        "AccumulationRegisters"@ == "AccumulationRegister"@ + "s"@,
        "AccountingRegisters"@ == "AccountingRegister"@ + "s"@,
        "CalculationRegisters"@ == "CalculationRegister"@ + "s"@,
        "ExchangePlans"@ == "ExchangePlan"@ + "s"@,
        "Tasks"@ == "Task"@ + "s"@,
        "CommonForms"@ == "CommonForm"@ + "s"@,
        "CommonCommands"@ == "CommonCommand"@ + "s"@,
        "WebServices"@ == "WebService"@ + "s"@,
        "HTTPServices"@ == "HTTPService"@ + "s"@,
        "DocumentJournals"@ == "DocumentJournal"@ + "s"@,
        "Sequences"@ == "Sequence"@ + "s"@,
        "SettingsStorages"@ == "SettingsStorage"@ + "s"@,
        "ExternalDataSources"@ == "ExternalDataSource"@ + "s"@,
        "ChartsOfAccounts"@ == "ChartsOf"@ + "Accounts"@,
        "ChartOfAccounts"@ == "ChartOf"@ + "Accounts"@,
        "ChartsOfCharacteristicTypes"@ == "ChartsOf"@ + "CharacteristicTypes"@,
        "ChartOfCharacteristicTypes"@ == "ChartOf"@ + "CharacteristicTypes"@,
        "ChartsOfCalculationTypes"@ == "ChartsOf"@ + "CalculationTypes"@,
        "ChartOfCalculationTypes"@ == "ChartOf"@ + "CalculationTypes"@,
{
    reveal_strlit("s");
    reveal_strlit("ChartsOf");
    reveal_strlit("ChartOf");
    reveal_strlit("Accounts");
    reveal_strlit("ChartsOfAccounts");
    reveal_strlit("ChartOfAccounts");
    reveal_strlit("CharacteristicTypes");
    reveal_strlit("ChartsOfCharacteristicTypes");
    reveal_strlit("ChartOfCharacteristicTypes");
    reveal_strlit("CalculationTypes");
    reveal_strlit("ChartsOfCalculationTypes");
    reveal_strlit("ChartOfCalculationTypes");
    reveal_strlit("Catalogs");
    reveal_strlit("Catalog");
    reveal_strlit("Documents");
    reveal_strlit("Document");
    reveal_strlit("DataProcessors");
    reveal_strlit("DataProcessor");
    reveal_strlit("Reports");
    reveal_strlit("Report");
    reveal_strlit("CommonModules");
    reveal_strlit("CommonModule");
    reveal_strlit("Enums");
    reveal_strlit("Enum");
    reveal_strlit("Constants");
    reveal_strlit("Constant");
    reveal_strlit("InformationRegisters");
    reveal_strlit("InformationRegister");
    reveal_strlit("AccumulationRegisters");
    reveal_strlit("AccumulationRegister");
    reveal_strlit("AccountingRegisters");
    reveal_strlit("AccountingRegister");
    reveal_strlit("CalculationRegisters");
    reveal_strlit("CalculationRegister");
    reveal_strlit("ExchangePlans");
    reveal_strlit("ExchangePlan");
    reveal_strlit("Tasks");
    reveal_strlit("Task");
    reveal_strlit("CommonForms");
    reveal_strlit("CommonForm");
    reveal_strlit("CommonCommands");
    reveal_strlit("CommonCommand");
    reveal_strlit("WebServices");
    reveal_strlit("WebService");
    reveal_strlit("HTTPServices");
    reveal_strlit("HTTPService");
    reveal_strlit("DocumentJournals");
    reveal_strlit("DocumentJournal");
    reveal_strlit("Sequences");
    reveal_strlit("Sequence");
    reveal_strlit("SettingsStorages");
    reveal_strlit("SettingsStorage");
    reveal_strlit("ExternalDataSources");
    reveal_strlit("ExternalDataSource");
}

proof fn lemma_folders_differ()
    ensures
        "Enums"@.len() == 5,
        "Enums"@[0] == 'E',
        "Tasks"@.len() == 5,
        "Tasks"@[0] == 'T',
        "Reports"@.len() == 7,
        "Catalogs"@.len() == 8,
        "Documents"@.len() == 9,
        "Documents"@[0] == 'D',
        "Constants"@.len() == 9,
        "Constants"@[0] == 'C',
        "Sequences"@.len() == 9,
        "Sequences"@[0] == 'S',
        "CommonForms"@.len() == 11,
        "CommonForms"@[0] == 'C',
        "WebServices"@.len() == 11,
        "WebServices"@[0] == 'W',
        "HTTPServices"@.len() == 12,
        "CommonModules"@.len() == 13,
        "CommonModules"@[0] == 'C',
        "ExchangePlans"@.len() == 13,
        "ExchangePlans"@[0] == 'E',
        "DataProcessors"@.len() == 14,
        "DataProcessors"@[0] == 'D',
        "CommonCommands"@.len() == 14,
        "CommonCommands"@[0] == 'C',
        "FilterCriteria"@.len() == 14,
        "FilterCriteria"@[0] == 'F',
        "ChartsOfAccounts"@.len() == 16,
        "ChartsOfAccounts"@[0] == 'C',
        "DocumentJournals"@.len() == 16,
        "DocumentJournals"@[0] == 'D',
        "SettingsStorages"@.len() == 16,
        "SettingsStorages"@[0] == 'S',
        "BusinessProcesses"@.len() == 17,
        "AccountingRegisters"@.len() == 19,
        "AccountingRegisters"@[0] == 'A',
        "ExternalDataSources"@.len() == 19,
        "ExternalDataSources"@[0] == 'E',
        "InformationRegisters"@.len() == 20,
        "InformationRegisters"@[0] == 'I',
        "CalculationRegisters"@.len() == 20,
        "CalculationRegisters"@[0] == 'C',
        "AccumulationRegisters"@.len() == 21,
        "ChartsOfCalculationTypes"@.len() == 24,
        "ChartsOfCharacteristicTypes"@.len() == 27,
{
    reveal_strlit("Enums");
    reveal_strlit("Tasks");
    reveal_strlit("Reports");
    reveal_strlit("Catalogs");
    reveal_strlit("Documents");
    reveal_strlit("Constants");
    reveal_strlit("Sequences");
    reveal_strlit("CommonForms");
    reveal_strlit("WebServices");
    reveal_strlit("HTTPServices");
    reveal_strlit("CommonModules");
    reveal_strlit("ExchangePlans");
    reveal_strlit("DataProcessors");
    reveal_strlit("CommonCommands");
    reveal_strlit("FilterCriteria");
    reveal_strlit("ChartsOfAccounts");
    reveal_strlit("DocumentJournals");
    reveal_strlit("SettingsStorages");
    reveal_strlit("BusinessProcesses");
    reveal_strlit("AccountingRegisters");
    reveal_strlit("ExternalDataSources");
    reveal_strlit("InformationRegisters");
    reveal_strlit("CalculationRegisters");
    reveal_strlit("AccumulationRegisters");
    reveal_strlit("ChartsOfCalculationTypes");
    reveal_strlit("ChartsOfCharacteristicTypes");
}

proof fn lemma_owner_at(names: Seq<Seq<char>>, i: int, k: int)
    requires
        0 <= i <= k,
        k + 1 < names.len(),
        module_folder(names[k]) is Some,
        forall|j: int| i <= j < k ==> module_folder(#[trigger] names[j]) is None,
    ensures
        owner_from(names, i) == Some((module_folder(names[k])->0, names[k + 1])),
    decreases k - i,
{
    if i < k {
        assert(module_folder(names[i]) is None);
        lemma_owner_at(names, i + 1, k);
    }
}

proof fn lemma_no_owner(names: Seq<Seq<char>>, i: int)
    requires
        0 <= i,
        forall|j: int| i <= j < names.len() - 1 ==> module_folder(#[trigger] names[j]) is None,
    ensures
        owner_from(names, i) is None,
    decreases names.len() - i,
{
    if i + 1 < names.len() {
        assert(module_folder(names[i]) is None);
        lemma_no_owner(names, i + 1);
    }
}

/// A module belongs to the object whose name stands right behind the first folder of
/// objects in its path: `k` is the place of the folder.
pub proof fn law_owner_is_behind_folder(path: Seq<char>, k: int, kind: Seq<char>)
    requires
        0 <= k,
        k + 1 < path_names(path).len(),
        is_plural(path_names(path)[k], kind),
        forall|j: int, other: Seq<char>|
            0 <= j < k ==> !#[trigger] is_plural(path_names(path)[j], other),
    ensures
        module_owner(path) == Some((kind, path_names(path)[k + 1])),
{
    let names = path_names(path);
    law_kind_has_folder(names[k], kind);
    assert forall|j: int| 0 <= j < k implies module_folder(#[trigger] names[j]) is None by {
        if module_folder(names[j]) is Some {
            law_folder_is_plural(names[j]);
            assert(!is_plural(names[j], module_folder(names[j])->0));
        }
    }
    lemma_owner_at(names, 0, k);
}

/// A module outside the folders of objects belongs to none, and neither does one whose path
/// ends with such a folder.
pub proof fn law_no_owner(path: Seq<char>)
    requires
        forall|j: int, other: Seq<char>|
            0 <= j < path_names(path).len() - 1 ==> !#[trigger] is_plural(
                path_names(path)[j],
                other,
            ),
    ensures
        module_owner(path) is None,
{
    let names = path_names(path);
    assert forall|j: int| 0 <= j < names.len() - 1 implies module_folder(
        #[trigger] names[j],
    ) is None by {
        if module_folder(names[j]) is Some {
            law_folder_is_plural(names[j]);
            assert(!is_plural(names[j], module_folder(names[j])->0));
        }
    }
    lemma_no_owner(names, 0);
}

/// Both slashes part the names of a path: the names hold neither, and with `/` between
/// them they give the path back, but for the direction of its slashes.
pub proof fn law_path_names(path: Seq<char>)
    ensures
        forall|k: int|
            0 <= k < path_names(path).len() ==> !(#[trigger] path_names(path)[k]).contains('/'),
        join(path_names(path), seq!['/']).len() == path.len(),
        forall|i: int|
            0 <= i < path.len() ==> #[trigger] join(path_names(path), seq!['/'])[i] == if path[i]
                == '\\' {
                '/'
            } else {
                path[i]
            },
{
    law_split_joins_back(with_slashes(path), '/');
}

} // verus!
