//! Editing `config.toml` in place with `toml_edit`: setting the voice keeps
//! every other setting, and the file's layout, as written.
use vstd::prelude::*;

verus! {

/// `toml_edit::DocumentMut`, a parsed document that keeps its layout.
#[verifier::external_type_specification]
#[verifier::external_body]
pub struct ExDocumentMut(toml_edit::DocumentMut);

/// `toml_edit::TomlError`, why a text is not TOML.
#[verifier::external_type_specification]
#[verifier::external_body]
pub struct ExTomlError(toml_edit::TomlError);

// ---------------------------------------------------------------------------
// What a document holds
// ---------------------------------------------------------------------------

/// The top-level keys of a document, each with whether its item is a table
/// (a `[section]` or an inline table); keys whose item is empty are absent.
pub uninterp spec fn top_level(doc: toml_edit::DocumentMut) -> Map<Seq<char>, bool>;

/// The string settings inside the document's tables, keyed by (table, key).
pub uninterp spec fn table_strings(doc: toml_edit::DocumentMut) -> Map<
    (Seq<char>, Seq<char>),
    Seq<char>,
>;

/// The text of a document (`Display` of `DocumentMut`).
pub uninterp spec fn document_text(doc: toml_edit::DocumentMut) -> Seq<char>;

/// What `toml_edit` reads from a text: `None` when it refuses it, otherwise
/// the top-level keys and the string settings of the document.
pub uninterp spec fn toml_parse(text: Seq<char>) -> Option<
    (Map<Seq<char>, bool>, Map<(Seq<char>, Seq<char>), Seq<char>>),
>;

// ---------------------------------------------------------------------------
// Trusted calls into toml_edit
// ---------------------------------------------------------------------------

/// `str::parse::<DocumentMut>`: fails exactly when `toml_edit` refuses the
/// text (named by `toml_parse`); otherwise the document holds what
/// `toml_parse` names.
#[verifier::external_body]
fn parse_document(text: &str) -> (r: Result<toml_edit::DocumentMut, toml_edit::TomlError>)
    ensures
        match r {
            Ok(d) => toml_parse(text@) == Some((top_level(d), table_strings(d))),
            Err(_) => toml_parse(text@) is None,
        },
{
    text.parse::<toml_edit::DocumentMut>()
}

/// `Table::get` on the document root, telling a table-like item
/// (`Item::is_table_like`) from any other: `None` for an absent key.
#[verifier::external_body]
fn top_level_kind(doc: &toml_edit::DocumentMut, key: &str) -> (r: Option<bool>)
    ensures
        r == top_level(*doc).get(key@),
{
    match doc.get(key) {
        Some(item) => Some(item.is_table_like()),
        None => None,
    }
}

/// `doc[key] = toml_edit::table()` for a key that is absent: an empty table
/// is added, and no string setting appears or goes.
#[verifier::external_body]
fn insert_empty_table(doc: &mut toml_edit::DocumentMut, key: &str)
    requires
        !top_level(*old(doc)).contains_key(key@),
    ensures
        top_level(*final(doc)) == top_level(*old(doc)).insert(key@, true),
        table_strings(*final(doc)) == table_strings(*old(doc)),
{
    doc[key] = toml_edit::table();
}

/// `doc[table][key] = toml_edit::value(v)` for a table-like `table` (on any
/// other item the indexing panics): the string setting is set, everything
/// else kept.
#[verifier::external_body]
fn set_table_string(doc: &mut toml_edit::DocumentMut, table: &str, key: &str, v: &str)
    requires
        top_level(*old(doc)).get(table@) == Some(true),
    ensures
        top_level(*final(doc)) == top_level(*old(doc)),
        table_strings(*final(doc)) == table_strings(*old(doc)).insert((table@, key@), v@),
{
    doc[table][key] = toml_edit::value(v);
}

/// `DocumentMut::to_string`; its result is named by `document_text`.
#[verifier::external_body]
fn document_string(doc: &toml_edit::DocumentMut) -> (s: String)
    ensures
        s@ == document_text(*doc),
{
    doc.to_string()
}

// ---------------------------------------------------------------------------
// Setting the voice
// ---------------------------------------------------------------------------

/// The configuration can take a voice: the `tts` key is absent or a table.
pub open spec fn voice_settable(tops: Map<Seq<char>, bool>) -> bool {
    tops.get("tts"@) != Some(false)
}

/// Sets `tts.voice`, adding the `[tts]` table when it is missing.
pub fn set_voice(doc: &mut toml_edit::DocumentMut, voice: &str)
    requires
        voice_settable(top_level(*old(doc))),
    ensures
        top_level(*final(doc)) == top_level(*old(doc)).insert("tts"@, true),
        table_strings(*final(doc)) == table_strings(*old(doc)).insert(("tts"@, "voice"@), voice@),
{
    if top_level_kind(doc, "tts").is_none() {
        insert_empty_table(doc, "tts");
    }
    set_table_string(doc, "tts", "voice", voice);
    assert(top_level(*old(doc)).insert("tts"@, true) =~= top_level(*final(doc)));
}

/// Why the configuration text could not take a voice.
pub enum VoiceEditError {
    /// `toml_edit` refused the text.
    Parse(toml_edit::TomlError),
    /// `tts` is set to something other than a table.
    TtsNotATable,
}

/// The configuration text `content` with `tts.voice` set to `voice`: the
/// text of a document holding what `content` holds, the `[tts]` table (added
/// when missing) and the voice. Refused when `toml_edit` refuses the text,
/// or when `tts` is not a table.
pub fn config_with_voice(content: &str, voice: &str) -> (r: Result<String, VoiceEditError>)
    ensures
        (r matches Err(VoiceEditError::Parse(_))) <==> toml_parse(content@) is None,
        (r matches Err(VoiceEditError::TtsNotATable)) <==> (toml_parse(content@) matches Some(p)
            && !voice_settable(p.0)),
        r matches Ok(text) ==> exists|d: toml_edit::DocumentMut|
            #![trigger document_text(d)]
            {
                &&& text@ == document_text(d)
                &&& toml_parse(content@) matches Some(p)
                &&& top_level(d) == p.0.insert("tts"@, true)
                &&& table_strings(d) == p.1.insert(("tts"@, "voice"@), voice@)
            },
{
    let mut doc = match parse_document(content) {
        Ok(d) => d,
        Err(e) => return Err(VoiceEditError::Parse(e)),
    };
    if top_level_kind(&doc, "tts") == Some(false) {
        return Err(VoiceEditError::TtsNotATable);
    }
    set_voice(&mut doc, voice);
    let text = document_string(&doc);
    assert(text@ == document_text(doc));
    Ok(text)
}

} // verus!
