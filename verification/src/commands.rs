//! The checks and decisions behind the desktop commands: names, settings, API keys, resource
//! kinds, export file names.
use vstd::prelude::*;
use vstd::string::*;
use vstd::utf8::encode_utf8;
use crate::domain::AssetKind;
use crate::storage::AppSettings;
use crate::text::{chars_of, lemma_trimmed_idempotent, same_text, str_equal, string_of, trim_bounds, trimmed};

verus! {

/// The most characters a project, moment or resource name may have.
pub const NAME_LIMIT: usize = 80;

/// A name checked for the `label` object: trimmed, 1 to 80 characters.
pub open spec fn valid_name_result(value: Seq<char>, label: Seq<char>) -> Result<Seq<char>, Seq<char>> {
    let t = trimmed(value);
    if t.len() == 0 || t.len() > NAME_LIMIT {
        Err("Назва "@ + label + " має містити 1–80 символів"@)
    } else {
        Ok(t)
    }
}

/// The view of a result of strings.
pub open spec fn result_text(r: Result<String, String>) -> Result<Seq<char>, Seq<char>> {
    match r {
        Ok(s) => Ok(s@),
        Err(e) => Err(e@),
    }
}

/// A user-given name, trimmed; rejected when it is empty or longer than 80 characters.
pub fn valid_name(value: &str, label: &str) -> (r: Result<String, String>)
    ensures
        result_text(r) == valid_name_result(value@, label@),
{
    let v = chars_of(value);
    let (a, b) = trim_bounds(&v, 0, v.len());
    assert(v@.subrange(0, v.len() as int) =~= value@);
    if a == b || b - a > NAME_LIMIT {
        let mut e = "Назва ".to_owned();
        e.append(label);
        e.append(" має містити 1–80 символів");
        return Err(e);
    }
    Ok(string_of(&v, a, b))
}

/// An accepted name is accepted again, unchanged.
pub proof fn lemma_valid_name_stable(value: Seq<char>, label: Seq<char>)
    ensures
        valid_name_result(value, label) matches Ok(t) ==> valid_name_result(t, label) == Ok::<Seq<char>, Seq<char>>(t),
{
    lemma_trimmed_idempotent(value);
}

/// A folder name checked: trimmed, 1 to 80 bytes of UTF-8.
pub open spec fn folder_name_result(name: Seq<char>) -> Result<Seq<char>, Seq<char>> {
    let t = trimmed(name);
    if t.len() == 0 || encode_utf8(t).len() > NAME_LIMIT {
        Err("Назва директорії має містити 1–80 символів"@)
    } else {
        Ok(t)
    }
}

/// Each character takes one to four bytes of UTF-8.
proof fn lemma_encode_utf8_length(s: Seq<char>)
    ensures
        s.len() <= encode_utf8(s).len() <= 4 * s.len(),
    decreases s.len(),
{
    if s.len() > 0 {
        lemma_encode_utf8_length(s.drop_first());
    }
}

/// A folder name, trimmed; rejected when it is empty or longer than 80 bytes.
pub fn valid_folder_name(name: &str) -> (r: Result<String, String>)
    ensures
        result_text(r) == folder_name_result(name@),
{
    let v = chars_of(name);
    let (a, b) = trim_bounds(&v, 0, v.len());
    assert(v@.subrange(0, v.len() as int) =~= name@);
    let t = string_of(&v, a, b);
    proof {
        lemma_encode_utf8_length(t@);
    }
    if a == b || b - a > NAME_LIMIT || t.as_str().len() > NAME_LIMIT {
        return Err("Назва директорії має містити 1–80 символів".to_owned());
    }
    Ok(t)
}

/// The shortest and longest autosave interval, in seconds.
pub const AUTOSAVE_MIN_SECONDS: u32 = 5;
pub const AUTOSAVE_MAX_SECONDS: u32 = 300;

/// An accepted folder name is accepted again, unchanged.
pub proof fn lemma_folder_name_stable(name: Seq<char>)
    ensures
        folder_name_result(name) matches Ok(t) ==> folder_name_result(t) == Ok::<Seq<char>, Seq<char>>(t),
{
    lemma_trimmed_idempotent(name);
}

/// Settings are accepted when the autosave interval is 5 to 300 seconds.
pub fn validate_settings(settings: &AppSettings) -> (r: Result<(), String>)
    ensures
        (r is Ok) == (AUTOSAVE_MIN_SECONDS <= settings.autosave_seconds <= AUTOSAVE_MAX_SECONDS),
        r matches Err(e) ==> e@ == "Інтервал autosave має бути 5–300 секунд"@,
{
    if settings.autosave_seconds < AUTOSAVE_MIN_SECONDS || settings.autosave_seconds > AUTOSAVE_MAX_SECONDS {
        return Err("Інтервал autosave має бути 5–300 секунд".to_owned());
    }
    Ok(())
}

/// What to do with an API key the user entered.
#[derive(Debug)]
pub enum KeyAction {
    /// Forget the key stored under `account`.
    Delete { account: String },
    /// Store `secret` under `account`.
    Store { account: String, secret: String },
}

/// The credential account for a kind of key.
pub open spec fn key_account(kind: Seq<char>) -> Option<Seq<char>> {
    if kind == "openai"@ {
        Some("openai-api-key"@)
    } else if kind == "admin"@ {
        Some("openai-admin-key"@)
    } else {
        None
    }
}

/// The action for a key: an unknown kind is refused; a blank value deletes the stored key;
/// any other value is stored trimmed.
pub fn api_key_action(kind: &str, value: &str) -> (r: Result<KeyAction, String>)
    ensures
        key_account(kind@) is None <==> r is Err,
        r matches Err(e) ==> e@ == "Невідомий тип ключа"@,
        r matches Ok(KeyAction::Delete { account }) ==> key_account(kind@) == Some(account@) && trimmed(value@).len()
            == 0,
        r matches Ok(KeyAction::Store { account, secret }) ==> key_account(kind@) == Some(account@) && trimmed(
            value@,
        ).len() > 0 && secret@ == trimmed(value@),
{
    let account = if str_equal(kind, "openai") {
        "openai-api-key"
    } else if str_equal(kind, "admin") {
        "openai-admin-key"
    } else {
        return Err("Невідомий тип ключа".to_owned());
    };
    let v = chars_of(value);
    let (a, b) = trim_bounds(&v, 0, v.len());
    assert(v@.subrange(0, v.len() as int) =~= value@);
    if a == b {
        Ok(KeyAction::Delete { account: account.to_owned() })
    } else {
        Ok(KeyAction::Store { account: account.to_owned(), secret: string_of(&v, a, b) })
    }
}

/// `c` with an ASCII capital letter turned into its small letter (`char::to_ascii_lowercase`).
pub open spec fn ascii_lower(c: char) -> char {
    if 'A' <= c && c <= 'Z' {
        ((c as int) + 32) as char
    } else {
        c
    }
}

/// `s` with ASCII capital letters turned into small ones.
pub open spec fn ascii_lowercase(s: Seq<char>) -> Seq<char> {
    s.map_values(|c: char| ascii_lower(c))
}

fn lower_char(c: char) -> (r: char)
    ensures
        r == ascii_lower(c),
{
    if 'A' <= c && c <= 'Z' {
        ((c as u8) + 32) as char
    } else {
        c
    }
}

/// Lowering a lowered character changes nothing.
proof fn lemma_ascii_lower_idempotent(c: char)
    ensures
        ascii_lower(ascii_lower(c)) == ascii_lower(c),
{
    if 'A' <= c && c <= 'Z' {
        let d = ((c as int) + 32) as char;
        assert(d as int == c as int + 32);
    }
}

/// The resource kind for a file extension, compared without regard to ASCII case.
pub open spec fn asset_kind_of(ext: Seq<char>) -> Option<AssetKind> {
    let e = ascii_lowercase(ext);
    if e == "mp4"@ || e == "mov"@ || e == "mkv"@ || e == "webm"@ {
        Some(AssetKind::Video)
    } else if e == "mp3"@ || e == "wav"@ || e == "aac"@ || e == "m4a"@ || e == "flac"@ {
        Some(AssetKind::Audio)
    } else if e == "png"@ || e == "jpg"@ || e == "jpeg"@ || e == "webp"@ {
        Some(AssetKind::Image)
    } else {
        None
    }
}

/// The resource kind does not depend on the extension's ASCII case.
pub proof fn lemma_asset_kind_ignores_case(ext: Seq<char>)
    ensures
        asset_kind_of(ascii_lowercase(ext)) == asset_kind_of(ext),
{
    assert forall|i: int| 0 <= i < ext.len() implies #[trigger] ascii_lowercase(ascii_lowercase(ext))[i]
        == ascii_lowercase(ext)[i] by {
        lemma_ascii_lower_idempotent(ext[i]);
    }
    assert(ascii_lowercase(ascii_lowercase(ext)) =~= ascii_lowercase(ext));
}

fn is_one_of(v: &Vec<char>, a: &str, b: &str, c: &str, d: &str) -> (r: bool)
    ensures
        r == (v@ == a@ || v@ == b@ || v@ == c@ || v@ == d@),
{
    same_text(v, &chars_of(a)) || same_text(v, &chars_of(b)) || same_text(v, &chars_of(c)) || same_text(
        v,
        &chars_of(d),
    )
}

/// The kind of a library resource with this file extension; none for an unsupported one.
pub fn asset_kind_for_extension(ext: &str) -> (r: Option<AssetKind>)
    ensures
        r == asset_kind_of(ext@),
{
    let v = chars_of(ext);
    let mut e: Vec<char> = Vec::new();
    let mut i: usize = 0;
    while i < v.len()
        invariant
            i <= v.len(),
            v@ == ext@,
            e@ == ascii_lowercase(v@.take(i as int)),
        decreases v.len() - i,
    {
        e.push(lower_char(v[i]));
        assert(e@ =~= ascii_lowercase(v@.take(i + 1)));
        i = i + 1;
    }
    assert(v@.take(v.len() as int) =~= v@);
    if is_one_of(&e, "mp4", "mov", "mkv", "webm") {
        Some(AssetKind::Video)
    } else if is_one_of(&e, "mp3", "wav", "aac", "m4a") || same_text(&e, &chars_of("flac")) {
        Some(AssetKind::Audio)
    } else if is_one_of(&e, "png", "jpg", "jpeg", "webp") {
        Some(AssetKind::Image)
    } else {
        None
    }
}

/// Whole minutes, rounded up, until a cost sync may run again, given the seconds left.
pub fn retry_minutes(remaining_seconds: u64) -> (r: u64)
    ensures
        r as int == (remaining_seconds as int + 59) / 60,
{
    remaining_seconds / 60 + if remaining_seconds % 60 != 0 { 1 } else { 0 }
}

/// The default file name of an export: `banshee-`, the first eight bytes of the candidate id,
/// `.mp4`. The id must have a character boundary at byte 8.
pub fn export_file_name(candidate_id: &str) -> (r: String)
    requires
        vstd::utf8::is_char_boundary(candidate_id.spec_bytes(), 8),
    ensures
        exists|p: Seq<char>| r@ == "banshee-"@ + p + ".mp4"@ && encode_utf8(p) == candidate_id.spec_bytes().subrange(0, 8),
{
    let (head, _) = candidate_id.split_at(8);
    let mut r = "banshee-".to_owned();
    r.append(head);
    r.append(".mp4");
    assert(encode_utf8(head@) == candidate_id.spec_bytes().subrange(0, 8));
    r
}

} // verus!
