//! The package database as a TOML document: a `packages` array of tables,
//! one per entry, with its ID, its two states by name and its font files.
use vstd::prelude::*;

use crate::db::{db_wf, has_id, DbEntry, EntryView, PackageDatabase};
use crate::package::file_name::{valid_file_name, FileName, FontEntry};
use crate::package::id::{law_package_id_text_roundtrip, package_id_accepts, package_id_parts, package_id_text, PackageId};
use crate::package::state::{activation_state_name, installation_state_name, ActivationState, InstallationState};
use crate::package::toml::{get, parse_toml, table_get, toml_document, TomlValue};
use crate::text::str_eq;

verus! {

/// Why a database document could not be read.
#[derive(Debug, Clone, PartialEq, Eq)]
pub enum DbFileError {
    Syntax { message: String },
    MissingField { key: String },
    InvalidPackageId { id: String },
    InvalidInstallationState { state: String },
    InvalidActivationState { state: String },
    InvalidFontFileName,
    DuplicateEntry { id: String },
}

pub enum DbFileErrorView {
    Syntax { message: Seq<char> },
    MissingField { key: Seq<char> },
    InvalidPackageId { id: Seq<char> },
    InvalidInstallationState { state: Seq<char> },
    InvalidActivationState { state: Seq<char> },
    InvalidFontFileName,
    DuplicateEntry { id: Seq<char> },
}

impl View for DbFileError {
    type V = DbFileErrorView;

    open spec fn view(&self) -> DbFileErrorView {
        match self {
            DbFileError::Syntax { message } => DbFileErrorView::Syntax { message: message@ },
            DbFileError::MissingField { key } => DbFileErrorView::MissingField { key: key@ },
            DbFileError::InvalidPackageId { id } => DbFileErrorView::InvalidPackageId { id: id@ },
            DbFileError::InvalidInstallationState { state } => DbFileErrorView::InvalidInstallationState {
                state: state@,
            },
            DbFileError::InvalidActivationState { state } => DbFileErrorView::InvalidActivationState { state: state@ },
            DbFileError::InvalidFontFileName => DbFileErrorView::InvalidFontFileName,
            DbFileError::DuplicateEntry { id } => DbFileErrorView::DuplicateEntry { id: id@ },
        }
    }
}

/// The text under `key` in a table.
pub open spec fn string_field(v: TomlValue, key: Seq<char>) -> Option<Seq<char>> {
    match v {
        TomlValue::Table(kv) => match table_get(kv@, key) {
            Some(TomlValue::String(s)) => Some(s@),
            _ => None,
        },
        _ => None,
    }
}

/// The values of the array under `fonts` in a table; none when there is no
/// such array.
pub open spec fn font_values(v: TomlValue) -> Seq<TomlValue> {
    match v {
        TomlValue::Table(kv) => match table_get(kv@, "fonts"@) {
            Some(TomlValue::Array(a)) => a@,
            _ => Seq::empty(),
        },
        _ => Seq::empty(),
    }
}

/// The installation state of that name.
pub open spec fn installation_of_name(s: Seq<char>) -> Option<InstallationState> {
    if s == installation_state_name(InstallationState::Installed) {
        Some(InstallationState::Installed)
    } else if s == installation_state_name(InstallationState::IncompleteInstall) {
        Some(InstallationState::IncompleteInstall)
    } else if s == installation_state_name(InstallationState::IncompleteUninstall) {
        Some(InstallationState::IncompleteUninstall)
    } else {
        None
    }
}

/// The activation state of that name.
pub open spec fn activation_of_name(s: Seq<char>) -> Option<ActivationState> {
    if s == activation_state_name(ActivationState::Active) {
        Some(ActivationState::Active)
    } else if s == activation_state_name(ActivationState::Inactive) {
        Some(ActivationState::Inactive)
    } else if s == activation_state_name(ActivationState::IncompleteActivation) {
        Some(ActivationState::IncompleteActivation)
    } else if s == activation_state_name(ActivationState::IncompleteDeactivation) {
        Some(ActivationState::IncompleteDeactivation)
    } else {
        None
    }
}

/// The font file names of an entry: each value a valid file name.
pub open spec fn font_names(vs: Seq<TomlValue>) -> Result<Seq<Seq<char>>, DbFileErrorView>
    decreases vs.len(),
{
    if vs.len() == 0 {
        Ok(Seq::empty())
    } else {
        match font_names(vs.drop_last()) {
            Err(e) => Err(e),
            Ok(names) => match vs.last() {
                TomlValue::String(s) => if valid_file_name(s@) {
                    Ok(names.push(s@))
                } else {
                    Err(DbFileErrorView::InvalidFontFileName)
                },
                _ => Err(DbFileErrorView::InvalidFontFileName),
            },
        }
    }
}

/// The entry a table of the `packages` array holds: its `id`, its
/// `installation` and `activation` states by name, in that order of checks,
/// then its fonts.
pub open spec fn entry_of_value(v: TomlValue) -> Result<EntryView, DbFileErrorView> {
    match string_field(v, "id"@) {
        None => Err(DbFileErrorView::MissingField { key: "id"@ }),
        Some(id) => if !package_id_accepts(id) {
            Err(DbFileErrorView::InvalidPackageId { id })
        } else {
            match string_field(v, "installation"@) {
                None => Err(DbFileErrorView::MissingField { key: "installation"@ }),
                Some(i) => match installation_of_name(i) {
                    None => Err(DbFileErrorView::InvalidInstallationState { state: i }),
                    Some(installation) => match string_field(v, "activation"@) {
                        None => Err(DbFileErrorView::MissingField { key: "activation"@ }),
                        Some(a) => match activation_of_name(a) {
                            None => Err(DbFileErrorView::InvalidActivationState { state: a }),
                            Some(activation) => match font_names(font_values(v)) {
                                Err(e) => Err(e),
                                Ok(fonts) => Ok(
                                    EntryView { id: package_id_parts(id), installation, activation, fonts },
                                ),
                            },
                        },
                    },
                },
            }
        }
    }
}

/// The entries of the `packages` array, in order; an ID that comes twice is
/// refused.
pub open spec fn entries_of_values(vs: Seq<TomlValue>) -> Result<Seq<EntryView>, DbFileErrorView>
    decreases vs.len(),
{
    if vs.len() == 0 {
        Ok(Seq::empty())
    } else {
        match entries_of_values(vs.drop_last()) {
            Err(e) => Err(e),
            Ok(entries) => match entry_of_value(vs.last()) {
                Err(e) => Err(e),
                Ok(entry) => if has_id(entries, entry.id) {
                    Err(DbFileErrorView::DuplicateEntry { id: package_id_text(entry.id) })
                } else {
                    Ok(entries.push(entry))
                },
            },
        }
    }
}

/// The entries of a database document: those of its `packages` array, or
/// none when it has no such array.
pub open spec fn database_of_document(doc: TomlValue) -> Result<Seq<EntryView>, DbFileErrorView> {
    match doc {
        TomlValue::Table(kv) => match table_get(kv@, "packages"@) {
            Some(TomlValue::Array(vs)) => entries_of_values(vs@),
            _ => Ok(Seq::empty()),
        },
        _ => Ok(Seq::empty()),
    }
}

/// The entries that a database text holds, or why it cannot be read.
pub open spec fn database_of_text(text: Seq<char>) -> Result<Seq<EntryView>, DbFileErrorView> {
    match toml_document(text) {
        Err(message) => Err(DbFileErrorView::Syntax { message }),
        Ok(doc) => database_of_document(doc),
    }
}

fn string_field_of<'a>(v: &'a TomlValue, key: &str) -> (r: Option<&'a String>)
    ensures
        match (r, string_field(*v, key@)) {
            (Some(s), Some(t)) => s@ == t,
            (None, None) => true,
            _ => false,
        },
{
    match v {
        TomlValue::Table(kv) => match get(kv, key) {
            Some(TomlValue::String(s)) => Some(s),
            _ => None,
        },
        _ => None,
    }
}

fn installation_named(s: &str) -> (r: Option<InstallationState>)
    ensures
        r == installation_of_name(s@),
{
    if str_eq(s, InstallationState::Installed.name()) {
        Some(InstallationState::Installed)
    } else if str_eq(s, InstallationState::IncompleteInstall.name()) {
        Some(InstallationState::IncompleteInstall)
    } else if str_eq(s, InstallationState::IncompleteUninstall.name()) {
        Some(InstallationState::IncompleteUninstall)
    } else {
        None
    }
}

fn activation_named(s: &str) -> (r: Option<ActivationState>)
    ensures
        r == activation_of_name(s@),
{
    if str_eq(s, ActivationState::Active.name()) {
        Some(ActivationState::Active)
    } else if str_eq(s, ActivationState::Inactive.name()) {
        Some(ActivationState::Inactive)
    } else if str_eq(s, ActivationState::IncompleteActivation.name()) {
        Some(ActivationState::IncompleteActivation)
    } else if str_eq(s, ActivationState::IncompleteDeactivation.name()) {
        Some(ActivationState::IncompleteDeactivation)
    } else {
        None
    }
}

fn fonts_of(v: &TomlValue) -> (r: Result<Vec<FontEntry>, DbFileError>)
    ensures
        match (r, font_names(font_values(*v))) {
            (Ok(fonts), Ok(names)) => fonts@.map_values(|f: FontEntry| f@) == names,
            (Err(e), Err(w)) => e@ == w,
            _ => false,
        },
{
    let mut fonts: Vec<FontEntry> = Vec::new();
    let names = match v {
        TomlValue::Table(kv) => match get(kv, "fonts") {
            Some(TomlValue::Array(a)) => a,
            _ => {
                assert(font_values(*v) =~= Seq::<TomlValue>::empty());
                assert(fonts@.map_values(|f: FontEntry| f@) =~= Seq::<Seq<char>>::empty());
                return Ok(fonts);
            },
        },
        _ => {
            assert(fonts@.map_values(|f: FontEntry| f@) =~= Seq::<Seq<char>>::empty());
            return Ok(fonts);
        },
    };
    let ghost vs = font_values(*v);
    assert(vs == names@);
    let mut i: usize = 0;
    assert(vs.take(0) =~= Seq::<TomlValue>::empty());
    assert(fonts@.map_values(|f: FontEntry| f@) =~= Seq::<Seq<char>>::empty());
    while i < names.len()
        invariant
            i <= names@.len(),
            vs == names@,
            vs == font_values(*v),
            font_names(vs.take(i as int)) == Ok::<_, DbFileErrorView>(fonts@.map_values(|f: FontEntry| f@)),
        decreases names@.len() - i,
    {
        proof {
            assert(vs.take(i + 1).drop_last() =~= vs.take(i as int));
            assert(vs.take(i + 1).last() == vs[i as int]);
        }
        let name = match &names[i] {
            TomlValue::String(s) => match FileName::new(s.as_str()) {
                Some(name) => name,
                None => {
                    proof {
                        assert(font_names(vs.take(i + 1)) == Err::<Seq<Seq<char>>, _>(DbFileErrorView::InvalidFontFileName));
                        lemma_font_names_error_stays(vs, i as int + 1);
                    }
                    return Err(DbFileError::InvalidFontFileName);
                },
            },
            _ => {
                proof {
                    assert(font_names(vs.take(i + 1)) == Err::<Seq<Seq<char>>, _>(DbFileErrorView::InvalidFontFileName));
                    lemma_font_names_error_stays(vs, i as int + 1);
                }
                return Err(DbFileError::InvalidFontFileName);
            },
        };
        let ghost before = fonts@;
        fonts.push(FontEntry::new(name));
        proof {
            assert(fonts@.map_values(|f: FontEntry| f@) =~= before.map_values(|f: FontEntry| f@).push(vs[i as int]->String_0@));
        }
        i = i + 1;
    }
    proof {
        assert(vs.take(names@.len() as int) =~= vs);
    }
    Ok(fonts)
}

/// Once the names of a prefix are refused, the names of the whole are
/// refused with the same error.
proof fn lemma_font_names_error_stays(vs: Seq<TomlValue>, n: int)
    requires
        0 <= n <= vs.len(),
        font_names(vs.take(n)) is Err,
    ensures
        font_names(vs) == font_names(vs.take(n)),
    decreases vs.len() - n,
{
    if n < vs.len() {
        assert(vs.take(n + 1).drop_last() =~= vs.take(n));
        lemma_font_names_error_stays(vs, n + 1);
    } else {
        assert(vs.take(n) =~= vs);
    }
}

/// Once the entries of a prefix are refused, the entries of the whole are
/// refused with the same error.
proof fn lemma_entries_error_stays(vs: Seq<TomlValue>, n: int)
    requires
        0 <= n <= vs.len(),
        entries_of_values(vs.take(n)) is Err,
    ensures
        entries_of_values(vs) == entries_of_values(vs.take(n)),
    decreases vs.len() - n,
{
    if n < vs.len() {
        assert(vs.take(n + 1).drop_last() =~= vs.take(n));
        lemma_entries_error_stays(vs, n + 1);
    } else {
        assert(vs.take(n) =~= vs);
    }
}

/// Reads one entry of the `packages` array.
pub fn entry_from_value(v: &TomlValue) -> (r: Result<DbEntry, DbFileError>)
    ensures
        match (r, entry_of_value(*v)) {
            (Ok(e), Ok(w)) => e@ == w && e@.id == w.id,
            (Err(e), Err(w)) => e@ == w,
            _ => false,
        },
        r matches Ok(e) ==> crate::package::id::valid_package_id(e@.id),
{
    let id_text = match string_field_of(v, "id") {
        Some(s) => s,
        None => return Err(DbFileError::MissingField { key: "id".to_owned() }),
    };
    let id = match PackageId::parse(id_text.as_str()) {
        Ok(id) => id,
        Err(_) => return Err(DbFileError::InvalidPackageId { id: id_text.clone() }),
    };
    let installation_text = match string_field_of(v, "installation") {
        Some(s) => s,
        None => return Err(DbFileError::MissingField { key: "installation".to_owned() }),
    };
    let installation = match installation_named(installation_text.as_str()) {
        Some(s) => s,
        None => return Err(DbFileError::InvalidInstallationState { state: installation_text.clone() }),
    };
    let activation_text = match string_field_of(v, "activation") {
        Some(s) => s,
        None => return Err(DbFileError::MissingField { key: "activation".to_owned() }),
    };
    let activation = match activation_named(activation_text.as_str()) {
        Some(s) => s,
        None => return Err(DbFileError::InvalidActivationState { state: activation_text.clone() }),
    };
    let fonts = fonts_of(v)?;
    Ok(DbEntry::new(id, installation, activation, fonts))
}

/// Reads the entries of a database document into a database.
pub fn database_from_document(doc: &TomlValue) -> (r: Result<PackageDatabase, DbFileError>)
    ensures
        match (r, database_of_document(*doc)) {
            (Ok(db), Ok(w)) => db@ == w && db.wf(),
            (Err(e), Err(w)) => e@ == w,
            _ => false,
        },
{
    let mut db = PackageDatabase::new();
    let values = match doc {
        TomlValue::Table(kv) => match get(kv, "packages") {
            Some(TomlValue::Array(vs)) => vs,
            _ => return Ok(db),
        },
        _ => return Ok(db),
    };
    let ghost vs = values@;
    let mut i: usize = 0;
    assert(vs.take(0) =~= Seq::<TomlValue>::empty());
    while i < values.len()
        invariant
            i <= values@.len(),
            vs == values@,
            database_of_document(*doc) == entries_of_values(vs),
            db.wf(),
            entries_of_values(vs.take(i as int)) == Ok::<_, DbFileErrorView>(db@),
        decreases values@.len() - i,
    {
        proof {
            assert(vs.take(i + 1).drop_last() =~= vs.take(i as int));
            assert(vs.take(i + 1).last() == vs[i as int]);
        }
        let entry = match entry_from_value(&values[i]) {
            Ok(e) => e,
            Err(e) => {
                proof {
                    lemma_entries_error_stays(vs, i as int + 1);
                }
                return Err(e);
            },
        };
        let id_text = entry.id().to_string();
        match db.insert(entry) {
            Ok(()) => {},
            Err(_) => {
                proof {
                    lemma_entries_error_stays(vs, i as int + 1);
                }
                return Err(DbFileError::DuplicateEntry { id: id_text });
            },
        }
        i = i + 1;
    }
    proof {
        assert(vs.take(values@.len() as int) =~= vs);
    }
    Ok(db)
}

/// Reads a database text.
pub fn parse_database(text: &str) -> (r: Result<PackageDatabase, DbFileError>)
    ensures
        match (r, database_of_text(text@)) {
            (Ok(db), Ok(w)) => db@ == w && db.wf(),
            (Err(e), Err(w)) => e@ == w,
            _ => false,
        },
{
    match parse_toml(text) {
        Err(message) => Err(DbFileError::Syntax { message }),
        Ok(doc) => database_from_document(&doc),
    }
}


/// A text value.
pub open spec fn is_text(v: TomlValue, s: Seq<char>) -> bool {
    match v {
        TomlValue::String(t) => t@ == s,
        _ => false,
    }
}

/// The table written for an entry: its ID, its installation and activation
/// states by name, and the names of its font files, in that order.
pub open spec fn writes_entry(v: TomlValue, e: EntryView) -> bool {
    match v {
        TomlValue::Table(kv) => {
            &&& kv@.len() == 4
            &&& kv@[0].0@ == "id"@ && is_text(kv@[0].1, package_id_text(e.id))
            &&& kv@[1].0@ == "installation"@ && is_text(kv@[1].1, installation_state_name(e.installation))
            &&& kv@[2].0@ == "activation"@ && is_text(kv@[2].1, activation_state_name(e.activation))
            &&& kv@[3].0@ == "fonts"@
            &&& match kv@[3].1 {
                TomlValue::Array(a) => a@.len() == e.fonts.len() && forall|i: int|
                    0 <= i < a@.len() ==> is_text(#[trigger] a@[i], e.fonts[i]),
                _ => false,
            }
        },
        _ => false,
    }
}

/// The document written for a database: a `packages` array holding the
/// table of each entry, in order.
pub open spec fn writes_database(v: TomlValue, s: Seq<EntryView>) -> bool {
    match v {
        TomlValue::Table(kv) => {
            &&& kv@.len() == 1
            &&& kv@[0].0@ == "packages"@
            &&& match kv@[0].1 {
                TomlValue::Array(a) => a@.len() == s.len() && forall|i: int|
                    0 <= i < a@.len() ==> writes_entry(#[trigger] a@[i], s[i]),
                _ => false,
            }
        },
        _ => false,
    }
}

/// The table of one entry.
pub fn entry_to_value(e: &DbEntry) -> (r: TomlValue)
    ensures
        writes_entry(r, e@),
{
    let mut names: Vec<TomlValue> = Vec::new();
    let fonts = e.fonts();
    let mut i: usize = 0;
    while i < fonts.len()
        invariant
            i <= fonts@.len(),
            fonts@.map_values(|f: FontEntry| f@) == e@.fonts,
            names@.len() == i,
            forall|j: int| 0 <= j < i ==> is_text(#[trigger] names@[j], e@.fonts[j]),
        decreases fonts@.len() - i,
    {
        let name = fonts[i].file_name().as_str().to_owned();
        assert(fonts@.map_values(|f: FontEntry| f@)[i as int] == fonts@[i as int]@);
        names.push(TomlValue::String(name));
        i = i + 1;
    }
    let mut kv: Vec<(String, TomlValue)> = Vec::new();
    kv.push(("id".to_owned(), TomlValue::String(e.id().to_string())));
    kv.push(("installation".to_owned(), TomlValue::String(e.installation_state().name().to_owned())));
    kv.push(("activation".to_owned(), TomlValue::String(e.activation_state().name().to_owned())));
    kv.push(("fonts".to_owned(), TomlValue::Array(names)));
    TomlValue::Table(kv)
}

/// The document of a database.
pub fn database_to_document(db: &PackageDatabase) -> (r: TomlValue)
    ensures
        writes_database(r, db@),
{
    let mut entries: Vec<TomlValue> = Vec::new();
    let mut i: usize = 0;
    while i < db.len()
        invariant
            i <= db@.len(),
            entries@.len() == i,
            forall|j: int| 0 <= j < i ==> writes_entry(#[trigger] entries@[j], db@[j]),
        decreases db@.len() - i,
    {
        entries.push(entry_to_value(db.entry(i)));
        i = i + 1;
    }
    let mut kv: Vec<(String, TomlValue)> = Vec::new();
    kv.push(("packages".to_owned(), TomlValue::Array(entries)));
    TomlValue::Table(kv)
}

/// The first value under a key is that of the first pair with that key.
proof fn lemma_table_get_at(t: Seq<(String, TomlValue)>, key: Seq<char>, k: int)
    requires
        0 <= k < t.len(),
        t[k].0@ == key,
        forall|j: int| 0 <= j < k ==> (#[trigger] t[j]).0@ != key,
    ensures
        table_get(t, key) == Some(t[k].1),
    decreases k,
{
    if k > 0 {
        assert(t[0].0@ != key);
        assert forall|j: int| 0 <= j < k - 1 implies (#[trigger] t.drop_first()[j]).0@ != key by {
            assert(t.drop_first()[j] == t[j + 1]);
        }
        lemma_table_get_at(t.drop_first(), key, k - 1);
    }
}

/// The names written for the fonts of an entry read back as those names.
proof fn lemma_font_names_read_back(a: Seq<TomlValue>, fonts: Seq<Seq<char>>)
    requires
        a.len() == fonts.len(),
        forall|i: int| 0 <= i < a.len() ==> is_text(#[trigger] a[i], fonts[i]),
        forall|i: int| 0 <= i < fonts.len() ==> valid_file_name(#[trigger] fonts[i]),
    ensures
        font_names(a) == Ok::<_, DbFileErrorView>(fonts),
    decreases a.len(),
{
    if a.len() > 0 {
        let n = a.len() - 1;
        assert forall|i: int| 0 <= i < n implies is_text(#[trigger] a.drop_last()[i], fonts.drop_last()[i]) by {
            assert(a.drop_last()[i] == a[i]);
        }
        assert forall|i: int| 0 <= i < n implies valid_file_name(#[trigger] fonts.drop_last()[i]) by {
            assert(fonts.drop_last()[i] == fonts[i]);
        }
        lemma_font_names_read_back(a.drop_last(), fonts.drop_last());
        assert(is_text(a[n], fonts[n]));
        assert(valid_file_name(fonts[n]));
        assert(fonts.drop_last().push(fonts[n]) =~= fonts);
    } else {
        assert(fonts =~= Seq::<Seq<char>>::empty());
    }
}

/// The table written for a valid entry reads back as that entry.
proof fn lemma_entry_reads_back(v: TomlValue, e: EntryView)
    requires
        writes_entry(v, e),
        crate::package::id::valid_package_id(e.id),
        forall|i: int| 0 <= i < e.fonts.len() ==> valid_file_name(#[trigger] e.fonts[i]),
    ensures
        entry_of_value(v) == Ok::<_, DbFileErrorView>(e),
{
    reveal_strlit("id");
    reveal_strlit("installation");
    reveal_strlit("activation");
    reveal_strlit("fonts");
    let kv = v->Table_0;
    let t = kv@;
    assert(t[0].0@.len() != "installation"@.len());
    assert(t[0].0@.len() != "activation"@.len() && t[1].0@.len() != "activation"@.len());
    lemma_table_get_at(t, "id"@, 0);
    lemma_table_get_at(t, "installation"@, 1);
    lemma_table_get_at(t, "activation"@, 2);
    lemma_table_get_at(t, "fonts"@, 3);
    law_package_id_text_roundtrip(e.id);
    let a = t[3].1->Array_0;
    lemma_font_names_read_back(a@, e.fonts);
    lemma_state_names_read_back(e.installation, e.activation);
}

/// The name of a state reads back as that state.
proof fn lemma_state_names_read_back(i: InstallationState, a: ActivationState)
    ensures
        installation_of_name(installation_state_name(i)) == Some(i),
        activation_of_name(activation_state_name(a)) == Some(a),
{
    reveal_strlit("installed");
    reveal_strlit("incomplete-install");
    reveal_strlit("incomplete-uninstall");
    reveal_strlit("active");
    reveal_strlit("inactive");
    reveal_strlit("incomplete-activation");
    reveal_strlit("incomplete-deactivation");
    assert("installed"@.len() == 9);
    assert("incomplete-install"@.len() == 18);
    assert("incomplete-uninstall"@.len() == 20);
    assert("active"@.len() == 6);
    assert("inactive"@.len() == 8);
    assert("incomplete-activation"@.len() == 21);
    assert("incomplete-deactivation"@.len() == 23);
}

/// What is written for a database reads back as that database: the
/// document of a database whose IDs are unique and well formed and whose
/// font names are valid gives back its entries, in order.
pub proof fn law_written_database_reads_back(doc: TomlValue, s: Seq<EntryView>)
    requires
        db_wf(s),
        forall|k: int, i: int| 0 <= k < s.len() && 0 <= i < s[k].fonts.len() ==> valid_file_name(#[trigger] s[k].fonts[i]),
        writes_database(doc, s),
    ensures
        database_of_document(doc) == Ok::<_, DbFileErrorView>(s),
{
    reveal_strlit("packages");
    let kv = doc->Table_0;
    lemma_table_get_at(kv@, "packages"@, 0);
    let a = kv@[0].1->Array_0;
    lemma_entries_read_back(a@, s, s.len() as int);
    assert(a@.take(s.len() as int) =~= a@);
    assert(s.take(s.len() as int) =~= s);
}

proof fn lemma_entries_read_back(a: Seq<TomlValue>, s: Seq<EntryView>, n: int)
    requires
        db_wf(s),
        forall|k: int, i: int| 0 <= k < s.len() && 0 <= i < s[k].fonts.len() ==> valid_file_name(#[trigger] s[k].fonts[i]),
        a.len() == s.len(),
        forall|i: int| 0 <= i < a.len() ==> writes_entry(#[trigger] a[i], s[i]),
        0 <= n <= s.len(),
    ensures
        entries_of_values(a.take(n)) == Ok::<_, DbFileErrorView>(s.take(n)),
    decreases n,
{
    if n == 0 {
        assert(a.take(0) =~= Seq::<TomlValue>::empty());
        assert(s.take(0) =~= Seq::<EntryView>::empty());
    } else {
        let k = n - 1;
        lemma_entries_read_back(a, s, k);
        assert(a.take(n).drop_last() =~= a.take(k));
        assert(a.take(n).last() == a[k]);
        assert forall|i: int| 0 <= i < s[k].fonts.len() implies valid_file_name(#[trigger] s[k].fonts[i]) by {}
        lemma_entry_reads_back(a[k], s[k]);
        let prev = s.take(k);
        if has_id(prev, s[k].id) {
            let j = choose|j: int| 0 <= j < prev.len() && prev[j].id == s[k].id;
            assert(prev[j] == s[j]);
            assert(s[j].id != s[k].id);
        }
        assert(prev.push(s[k]) =~= s.take(n));
    }
}

} // verus!
