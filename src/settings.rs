use vstd::prelude::*;

verus! {

#[verifier::external_type_specification]
#[verifier::external_body]
pub struct ExValue(serde_json::Value);

/// A field of a settings document as plain values: its name, and its value,
/// which this library carries through unread.
pub type FieldView = (Seq<char>, serde_json::Value);

pub open spec fn field_view(f: (String, serde_json::Value)) -> FieldView {
    (f.0@, f.1)
}

pub open spec fn fields_view(fs: Seq<(String, serde_json::Value)>) -> Seq<FieldView> {
    fs.map_values(|f: (String, serde_json::Value)| field_view(f))
}

pub open spec fn strings_view(v: Seq<String>) -> Seq<Seq<char>> {
    v.map_values(|s: String| s@)
}

/// No two fields have the same name.
pub open spec fn keys_distinct(fs: Seq<FieldView>) -> bool {
    forall|i: int, j: int| 0 <= i < j < fs.len() ==> #[trigger] fs[i].0 != #[trigger] fs[j].0
}

/// The fields of `fs` not named `key`, in order.
pub open spec fn without_key(fs: Seq<FieldView>, key: Seq<char>) -> Seq<FieldView>
    decreases fs.len(),
{
    if fs.len() == 0 {
        Seq::empty()
    } else if fs.last().0 == key {
        without_key(fs.drop_last(), key)
    } else {
        without_key(fs.drop_last(), key).push(fs.last())
    }
}

/// The value of the last field of `fs` named `key`.
pub open spec fn value_of(fs: Seq<FieldView>, key: Seq<char>) -> Option<serde_json::Value>
    decreases fs.len(),
{
    if fs.len() == 0 {
        None
    } else if fs.last().0 == key {
        Some(fs.last().1)
    } else {
        value_of(fs.drop_last(), key)
    }
}

/// The library list of a document; an empty one where it has none.
pub open spec fn library_or_empty_spec(v: SettingsView) -> Seq<Seq<char>> {
    match v.library {
        Some(l) => l,
        None => Seq::empty(),
    }
}

/// A settings document as plain values.
pub struct SettingsView {
    /// The name of the field that holds the library list.
    pub library_key: Seq<char>,
    /// The library list, if the document has that field.
    pub library: Option<Seq<Seq<char>>>,
    /// Every other field, unchanged.
    pub rest: Seq<FieldView>,
}

/// An editor settings document: the one field this library reads and
/// writes, the ordered list of library paths, and every other field kept as
/// it was read.
#[derive(Debug)]
pub struct Settings {
    library_key: String,
    library: Option<Vec<String>>,
    rest: Vec<(String, serde_json::Value)>,
}

/// Why a settings document could not be read or written.
#[derive(Debug)]
pub enum SettingsError {
    /// The text is not JSON with comments.
    Parse(String),
    /// The document is not an object.
    NotAnObject,
    /// The library field is neither null nor a list of strings.
    Library(String),
}

/// What `jsonc_parser` reads from the text: `None` where it rejects the
/// text, `Some(None)` where the text holds no value.
pub uninterp spec fn jsonc_parse(text: Seq<char>) -> Option<Option<serde_json::Value>>;

/// The fields of a JSON value, in the order `serde_json` keeps them, if the
/// value is an object.
pub uninterp spec fn object_entries(v: serde_json::Value) -> Option<Seq<FieldView>>;

/// What `serde_json` reads from a value as an optional list of strings:
/// `None` where the value is neither null nor such a list.
pub uninterp spec fn string_list(v: serde_json::Value) -> Option<Option<Seq<Seq<char>>>>;

/// The JSON list of these strings.
pub uninterp spec fn json_list(items: Seq<Seq<char>>) -> serde_json::Value;

/// The JSON text of an object with these fields.
pub uninterp spec fn json_object_text(fields: Seq<FieldView>) -> Seq<char>;

/// Text made only of spaces, tabs and line breaks.
pub open spec fn is_blank(text: Seq<char>) -> bool {
    forall|i: int|
        0 <= i < text.len() ==> (#[trigger] text[i] == ' ' || text[i] == '\t' || text[i] == '\n'
            || text[i] == '\r')
}

/// Relies on `jsonc_parser::parse_to_serde_value`, which reads JSON with
/// comments; empty or whitespace-only input reads as `null`, which is `None`
/// for an `Option`.
#[verifier::external_body]
fn parse_jsonc(text: &str) -> (r: Result<Option<serde_json::Value>, String>)
    ensures
        r is Ok <==> jsonc_parse(text@) is Some,
        r matches Ok(v) ==> jsonc_parse(text@) == Some(v),
        is_blank(text@) ==> r matches Ok(None),
{
    jsonc_parser::parse_to_serde_value::<Option<serde_json::Value>>(
        text,
        &jsonc_parser::ParseOptions::default(),
    ).map_err(|e| e.to_string())
}

/// Relies on `serde_json::Map`, a `BTreeMap` of field names to values: the
/// fields of an object, each name once.
#[verifier::external_body]
fn object_fields(v: serde_json::Value) -> (r: Option<Vec<(String, serde_json::Value)>>)
    ensures
        r is Some <==> object_entries(v) is Some,
        r matches Some(fs) ==> object_entries(v) == Some(fields_view(fs@)),
        r matches Some(fs) ==> keys_distinct(fields_view(fs@)),
{
    match v {
        serde_json::Value::Object(m) => Some(m.into_iter().collect()),
        _ => None,
    }
}

/// Relies on `serde_json::from_value`: `null` reads as `None`, a list of
/// strings as that list, and anything else is an error.
#[verifier::external_body]
fn library_from_value(v: serde_json::Value) -> (r: Result<Option<Vec<String>>, String>)
    ensures
        r is Ok <==> string_list(v) is Some,
        r matches Ok(l) ==> string_list(v) == Some(string_list_view(l)),
{
    serde_json::from_value::<Option<Vec<String>>>(v).map_err(|e| e.to_string())
}

/// Relies on `serde_json::Value::from`, which makes a JSON list of the strings.
#[verifier::external_body]
fn list_value(list: Vec<String>) -> (r: serde_json::Value)
    ensures
        r == json_list(strings_view(list@)),
{
    serde_json::Value::from(list)
}

/// Relies on `serde_json::to_string`, writing the fields as one JSON object;
/// a map with string keys always writes.
#[verifier::external_body]
fn fields_to_text(fields: Vec<(String, serde_json::Value)>) -> (r: Result<String, String>)
    ensures
        r is Ok,
        r matches Ok(t) ==> t@ == json_object_text(fields_view(fields@)),
{
    let object: serde_json::Map<String, serde_json::Value> = fields.into_iter().collect();
    serde_json::to_string(&object).map_err(|e| e.to_string())
}

pub open spec fn string_list_view(l: Option<Vec<String>>) -> Option<Seq<Seq<char>>> {
    match l {
        Some(v) => Some(strings_view(v@)),
        None => None,
    }
}

/// The document that `text` holds, with its library list in the field
/// `key`: none where the text is not JSON with comments, is not an object,
/// or has a library field that is neither null nor a list of strings. Text
/// without a value is a document without fields.
pub open spec fn loaded(text: Seq<char>, key: Seq<char>) -> Option<SettingsView> {
    match jsonc_parse(text) {
        None => None,
        Some(None) => Some(SettingsView { library_key: key, library: None, rest: Seq::empty() }),
        Some(Some(v)) => match object_entries(v) {
            None => None,
            Some(fs) => match value_of(fs, key) {
                None => Some(
                    SettingsView { library_key: key, library: None, rest: without_key(fs, key) },
                ),
                Some(lv) => match string_list(lv) {
                    None => None,
                    Some(l) => Some(
                        SettingsView { library_key: key, library: l, rest: without_key(fs, key) },
                    ),
                },
            },
        },
    }
}

/// The fields a document writes: every other field, then the library field
/// holding the JSON list of its entries, if it has one.
pub open spec fn doc_fields(d: SettingsView) -> Seq<FieldView> {
    match d.library {
        None => d.rest,
        Some(l) => d.rest.push((d.library_key, json_list(l))),
    }
}

/// Takes the field named `key` out of `fields`: its value, if there is one,
/// and the other fields in order.
pub fn split_fields(fields: Vec<(String, serde_json::Value)>, key: &str) -> (r: (
    Option<serde_json::Value>,
    Vec<(String, serde_json::Value)>,
))
    ensures
        r.0 == value_of(fields_view(fields@), key@),
        fields_view(r.1@) == without_key(fields_view(fields@), key@),
{
    let ghost all = fields_view(fields@);
    let n = fields.len();
    let key_owned = key.to_owned();
    let mut pending = fields;
    let ghost pend0 = pending@;
    let mut found: Option<serde_json::Value> = None;
    let mut rest: Vec<(String, serde_json::Value)> = Vec::new();
    let mut k: usize = 0;
    while pending.len() > 0
        invariant
            all.len() == n,
            k + pending@.len() == n,
            all == fields_view(pend0),
            pending@ == pend0.skip(k as int),
            key_owned@ == key@,
            found == value_of(all.take(k as int), key@),
            fields_view(rest@) == without_key(all.take(k as int), key@),
        decreases pending@.len(),
    {
        let f = pending.remove(0);
        proof {
            assert(all.take(k + 1).drop_last() =~= all.take(k as int));
            assert(all[k as int] == field_view(pend0[k as int]));
            assert(pending@ =~= pend0.skip(k + 1));
        }
        if f.0 == key_owned {
            found = Some(f.1);
        } else {
            let ghost before = rest@;
            let ghost fv = field_view(f);
            rest.push(f);
            assert(fields_view(rest@) =~= fields_view(before).push(fv));
        }
        k = k + 1;
    }
    assert(all.take(k as int) =~= all);
    (found, rest)
}

/// A field that is kept was there before, and no kept field is named `key`.
proof fn lemma_without_key(fs: Seq<FieldView>, key: Seq<char>)
    ensures
        forall|i: int|
            0 <= i < without_key(fs, key).len() ==> #[trigger] without_key(fs, key)[i].0 != key
                && fs.contains(without_key(fs, key)[i]),
        keys_distinct(fs) ==> keys_distinct(without_key(fs, key)),
    decreases fs.len(),
{
    if fs.len() > 0 {
        let d = fs.drop_last();
        lemma_without_key(d, key);
        let w = without_key(d, key);
        assert forall|i: int| 0 <= i < w.len() implies fs.contains(#[trigger] w[i]) by {
            let j = choose|j: int| 0 <= j < d.len() && d[j] == w[i];
            assert(fs[j] == w[i]);
        }
        if fs.last().0 != key {
            let w2 = w.push(fs.last());
            assert(fs[fs.len() - 1] == fs.last());
            if keys_distinct(fs) {
                assert forall|i: int, j: int| 0 <= i < j < w2.len() implies #[trigger] w2[i].0
                    != #[trigger] w2[j].0 by {
                    if j == w.len() {
                        let m = choose|m: int| 0 <= m < d.len() && d[m] == w[i];
                        assert(fs[m] == w[i]);
                    } else {
                        assert(w2[i] == w[i] && w2[j] == w[j]);
                    }
                }
            }
        }
    }
}

impl View for Settings {
    type V = SettingsView;

    closed spec fn view(&self) -> SettingsView {
        SettingsView {
            library_key: self.library_key@,
            library: match self.library {
                Some(l) => Some(strings_view(l@)),
                None => None,
            },
            rest: fields_view(self.rest@),
        }
    }
}

impl Settings {
    /// The other fields hold no field named as the library field, and no
    /// two of them share a name.
    pub closed spec fn wf(&self) -> bool {
        &&& forall|i: int| 0 <= i < self@.rest.len() ==> #[trigger] self@.rest[i].0 != self@.library_key
        &&& keys_distinct(self@.rest)
    }

    /// A document without fields, as an empty or missing file reads.
    pub fn empty(library_key: &str) -> (r: Settings)
        ensures
            r.wf(),
            r@.library_key == library_key@,
            r@.library is None,
            r@.rest.len() == 0,
    {
        let r = Settings { library_key: library_key.to_owned(), library: None, rest: Vec::new() };
        assert(r@.rest.len() == 0);
        r
    }

    /// Reads a settings document written as JSON with comments, whose library
    /// list stands in the field `library_key`. Empty text is a document
    /// without fields.
    pub fn load(text: &str, library_key: &str) -> (r: Result<Settings, SettingsError>)
        ensures
            r is Ok <==> loaded(text@, library_key@) is Some,
            r matches Ok(s) ==> s.wf() && loaded(text@, library_key@) == Some(s@),
            r matches Err(SettingsError::Parse(_)) <==> jsonc_parse(text@) is None,
            is_blank(text@) ==> (r matches Ok(s) && s@.library is None && s@.rest.len() == 0),
    {
        match parse_jsonc(text) {
            Err(m) => Err(SettingsError::Parse(m)),
            Ok(None) => {
                let r = Settings::empty(library_key);
                assert(r@.rest =~= Seq::<FieldView>::empty());
                Ok(r)
            },
            Ok(Some(v)) => match object_fields(v) {
                None => Err(SettingsError::NotAnObject),
                Some(fields) => {
                    let ghost fv = fields_view(fields@);
                    let (found, rest) = split_fields(fields, library_key);
                    proof {
                        lemma_without_key(fv, library_key@);
                    }
                    let library = match found {
                        None => None,
                        Some(v) => match library_from_value(v) {
                            Err(m) => return Err(SettingsError::Library(m)),
                            Ok(l) => l,
                        },
                    };
                    let r = Settings { library_key: library_key.to_owned(), library, rest };
                    assert(r@.rest == without_key(fv, library_key@));
                    assert(r@.library == string_list_view(library));
                    Ok(r)
                },
            },
        }
    }

    /// The library list, if the document has that field.
    pub fn library(&self) -> (r: Option<&Vec<String>>)
        ensures
            match r {
                Some(l) => self@.library == Some(strings_view(l@)),
                None => self@.library is None,
            },
    {
        match &self.library {
            Some(l) => Some(l),
            None => None,
        }
    }

    /// A copy of the library list; empty if the document has none.
    pub fn library_or_empty(&self) -> (r: Vec<String>)
        ensures
            strings_view(r@) == library_or_empty_spec(self@),
    {
        let mut r: Vec<String> = Vec::new();
        match &self.library {
            None => {
                assert(strings_view(r@) =~= Seq::<Seq<char>>::empty());
            },
            Some(l) => {
                let mut i: usize = 0;
                while i < l.len()
                    invariant
                        i <= l.len(),
                        self.library == Some(*l),
                        strings_view(r@) == strings_view(l@).take(i as int),
                    decreases l.len() - i,
                {
                    let ghost before = r@;
                    let item = l[i].clone();
                    r.push(item);
                    assert(strings_view(r@) =~= strings_view(before).push(l@[i as int]@));
                    assert(strings_view(l@).take(i + 1) =~= strings_view(l@).take(i as int).push(
                        l@[i as int]@,
                    ));
                    i = i + 1;
                }
                assert(strings_view(l@).take(i as int) =~= strings_view(l@));
            },
        }
        r
    }

    /// The same document with `library` as its library list.
    pub fn with_library(self, library: Vec<String>) -> (r: Settings)
        requires
            self.wf(),
        ensures
            r.wf(),
            r@.library_key == self@.library_key,
            r@.library == Some(strings_view(library@)),
            r@.rest == self@.rest,
    {
        Settings { library_key: self.library_key, library: Some(library), rest: self.rest }
    }

    /// The fields to write: every other field as it was read, then the
    /// library field if the document has one.
    pub fn to_fields(self) -> (r: Vec<(String, serde_json::Value)>)
        ensures
            fields_view(r@) == doc_fields(self@),
    {
        let mut fields = self.rest;
        match self.library {
            None => fields,
            Some(l) => {
                let ghost before = fields@;
                let ghost lv = strings_view(l@);
                let value = list_value(l);
                let ghost fv = field_view((self.library_key, value));
                fields.push((self.library_key, value));
                assert(fields_view(fields@) =~= fields_view(before).push(fv));
                fields
            },
        }
    }

    /// The document as JSON text: an object of the fields `to_fields` gives.
    pub fn serialize(self) -> (r: String)
        ensures
            r@ == json_object_text(doc_fields(self@)),
    {
        match fields_to_text(self.to_fields()) {
            Ok(t) => t,
            Err(_) => {
                assert(false);
                String::new()
            },
        }
    }
}

} // verus!
