//! The plugin marketplace: the signed registry of published plugins, and
//! the GitHub repositories plugins are installed from.

use crate::text::{
    chars_of, first_pos, split_on, split_str, str_starts_with, substring, trim_end_char,
};
use ed25519_dalek::Verifier;
use vstd::prelude::*;

verus! {

/// A column that a published plugin declares.
#[derive(Debug, Clone)]
pub struct PluginColumnEntry {
    pub name: String,
    pub display: String,
    pub col_type: String,
    pub dtype: String,
    pub sortable: bool,
}

/// The part of a published plugin's manifest that the registry lists.
#[derive(Debug, Clone)]
pub struct PluginEntryManifest {
    pub columns: Vec<PluginColumnEntry>,
}

/// A plugin published in the registry.
#[derive(Debug, Clone)]
pub struct PluginEntry {
    pub name: String,
    pub display_name: String,
    pub icon: String,
    pub version: String,
    pub description: String,
    pub repo_url: String,
    pub verified: bool,
    pub manifest: PluginEntryManifest,
}

/// The plugin registry document, with its detached signature.
#[derive(Debug, Clone)]
pub struct Registry {
    pub registry_version: String,
    pub updated_at: String,
    pub signature: Option<String>,
    pub public_key: Option<String>,
    pub plugins: Vec<PluginEntry>,
}

/// The outcome of checking the registry's signature.
#[derive(Debug, Clone)]
pub struct RegistryVerifyResult {
    pub valid: bool,
    pub plugins: Vec<PluginEntry>,
    pub error: Option<String>,
}

// ---------------------------------------------------------------------------
// Outside functions
// ---------------------------------------------------------------------------

pub open spec fn is_hex_digit(b: u8) -> bool {
    (48 <= b && b <= 57) || (97 <= b && b <= 102) || (65 <= b && b <= 70)
}

pub open spec fn hex_value(b: u8) -> int {
    if 48 <= b && b <= 57 {
        b - 48
    } else if 97 <= b && b <= 102 {
        b - 97 + 10
    } else {
        b - 65 + 10
    }
}

/// What `hex::decode` accepts and gives: an even number of hexadecimal
/// digits (either case), two per byte, high nibble first.
pub open spec fn hex_decoded(text: Seq<u8>) -> Option<Seq<u8>> {
    if text.len() % 2 == 0 && forall|i: int| 0 <= i < text.len() ==> is_hex_digit(#[trigger] text[i]) {
        Some(Seq::new(text.len() / 2, |i: int| (hex_value(text[2 * i]) * 16 + hex_value(text[2 * i + 1])) as u8))
    } else {
        None
    }
}

/// Names the text of the error `hex::decode` reports for bytes it rejects
/// (the `Display` of its `FromHexError`).
pub uninterp spec fn hex_error_text(text: Seq<u8>) -> Seq<char>;

/// Calls `hex::decode` on the UTF-8 bytes of `s`. Trusted: it accepts
/// exactly an even number of hexadecimal digits and decodes them pairwise,
/// as `hex_decoded` states; a rejection's message is `hex_error_text` of
/// the bytes, which for an odd number of bytes is `Odd number of digits`
/// (the length is checked first). The message for an invalid character
/// (which names the character and its position) is left unstated.
#[verifier::external_body]
fn hex_decode(s: &str) -> (r: Result<Vec<u8>, String>)
    ensures
        match hex_decoded(utf8(s@)) {
            Some(bytes) => r matches Ok(v) && v@ == bytes,
            None => r matches Err(e) && e@ == hex_error_text(utf8(s@))
                && (utf8(s@).len() % 2 != 0 ==> e@ == "Odd number of digits"@),
        },
{
    hex::decode(s).map_err(|e| e.to_string())
}

/// Names whether `ed25519_dalek::VerifyingKey::from_bytes` accepts 32 bytes
/// as a compressed Edwards point.
pub uninterp spec fn ed25519_point_decodes(key: Seq<u8>) -> bool;

/// Names whether `VerifyingKey::verify` accepts `signature` over `message`
/// for the key with the given 32 bytes.
pub uninterp spec fn ed25519_accepts(key: Seq<u8>, message: Seq<u8>, signature: Seq<u8>) -> bool;

/// Calls `ed25519_dalek::VerifyingKey::from_bytes` on 32 bytes and keeps
/// only whether it succeeded. Trusted: success is `ed25519_point_decodes`;
/// the only failure of that function is a point that does not decompress,
/// whose message (with the crate's default `std` feature) is the one stated.
#[verifier::external_body]
fn check_verifying_key(key: &[u8]) -> (r: Result<(), String>)
    requires
        key@.len() == 32,
    ensures
        r is Ok <==> ed25519_point_decodes(key@),
        r matches Err(e) ==> e@ == "signature error: Cannot decompress Edwards point"@,
{
    let bytes: &[u8; 32] = key.try_into().unwrap();
    ed25519_dalek::VerifyingKey::from_bytes(bytes).map(|_| ()).map_err(|e| e.to_string())
}

/// Calls `ed25519_dalek::Signature::from_slice`, handing back the bytes of
/// the signature it builds. Trusted: it accepts exactly 64 bytes and keeps
/// them; otherwise its error's message is `signature error`.
#[verifier::external_body]
fn signature_from_slice(bytes: &[u8]) -> (r: Result<Vec<u8>, String>)
    ensures
        r is Ok <==> bytes@.len() == 64,
        r matches Ok(v) ==> v@ == bytes@,
        r matches Err(e) ==> e@ == "signature error"@,
{
    ed25519_dalek::Signature::from_slice(bytes).map(|s| s.to_bytes().to_vec()).map_err(|e| e.to_string())
}

/// Calls `VerifyingKey::verify` for the key with the given bytes (rebuilt
/// with `VerifyingKey::from_bytes`, which the precondition makes succeed)
/// and a 64-byte signature. Trusted: the answer is `ed25519_accepts`.
#[verifier::external_body]
fn ed25519_verify(key: &[u8], message: &[u8], signature: &[u8]) -> (r: bool)
    requires
        key@.len() == 32,
        signature@.len() == 64,
        ed25519_point_decodes(key@),
    ensures
        r == ed25519_accepts(key@, message@, signature@),
{
    let key_bytes: &[u8; 32] = key.try_into().unwrap();
    let sig_bytes: &[u8; 64] = signature.try_into().unwrap();
    match ed25519_dalek::VerifyingKey::from_bytes(key_bytes) {
        Ok(k) => k.verify(message, &ed25519_dalek::Signature::from_bytes(sig_bytes)).is_ok(),
        Err(_) => false,
    }
}

// ---------------------------------------------------------------------------
// JSON objects (serde_json)
// ---------------------------------------------------------------------------

#[verifier::external_type_specification]
#[verifier::external_body]
pub struct ExJsonValue(serde_json::Value);

#[verifier::external_type_specification]
#[verifier::external_body]
#[verifier::reject_recursive_types(K)]
#[verifier::reject_recursive_types(V)]
pub struct ExJsonMap<K, V>(serde_json::Map<K, V>);

/// A JSON object.
pub type JsonObject = serde_json::Map<String, serde_json::Value>;

/// Names what a JSON object holds: each key with the compact JSON text
/// (as `serde_json::to_string` writes it) of its value.
pub uninterp spec fn json_entries(m: JsonObject) -> Map<Seq<char>, Seq<char>>;

/// The entries of an empty object.
pub open spec fn no_entries() -> Map<Seq<char>, Seq<char>> {
    Map::empty()
}

/// Names the object that `serde_json::from_str` reads from a text as a
/// `serde_json::Value`, taken by `Value::as_object`: its entries, or none
/// when the text is not JSON or does not hold an object.
pub uninterp spec fn json_object_of(text: Seq<char>) -> Option<Map<Seq<char>, Seq<char>>>;

/// Names what `serde_json::to_string` gives for an object with the given
/// entries: the text, or none when it reports an error.
pub uninterp spec fn json_object_text(entries: Map<Seq<char>, Seq<char>>) -> Option<Seq<char>>;

/// Calls `serde_json::from_str` for a `serde_json::Value` and keeps a copy
/// of the object it holds (`Value::as_object`, cloned). Trusted: the
/// outcome depends on the text alone and is named `json_object_of`.
#[verifier::external_body]
fn parse_json_object(text: &str) -> (r: Option<JsonObject>)
    ensures
        match json_object_of(text@) {
            Some(e) => r matches Some(m) && json_entries(m) == e,
            None => r is None,
        },
{
    match serde_json::from_str::<serde_json::Value>(text) {
        Ok(value) => value.as_object().cloned(),
        Err(_) => None,
    }
}

/// Calls `serde_json::Map::new`. Trusted: the map is empty.
#[verifier::external_body]
fn new_json_map() -> (m: JsonObject)
    ensures
        json_entries(m) == no_entries(),
{
    serde_json::Map::new()
}

/// Calls `serde_json::Map::remove` and drops the removed value. Trusted:
/// the key is gone and every other entry stays.
#[verifier::external_body]
fn remove_json_key(m: &mut JsonObject, key: &str)
    ensures
        json_entries(*final(m)) == json_entries(*old(m)).remove(key@),
{
    m.remove(key);
}

/// Calls `serde_json::to_string` on an object. Trusted: the outcome
/// depends on the object's entries alone (without the `preserve_order`
/// feature the map keeps its keys sorted) and is named `json_object_text`.
#[verifier::external_body]
fn json_map_to_string(m: &JsonObject) -> (r: Option<String>)
    ensures
        match json_object_text(json_entries(*m)) {
            Some(t) => r matches Some(s) && s@ == t,
            None => r is None,
        },
{
    serde_json::to_string(m).ok()
}

/// The text a registry's signature covers: the registry document without
/// its `signature` and `public_key` fields, written again as compact JSON.
/// A text that holds no JSON object counts as the empty object, and a
/// failure to write the object gives `{}`.
pub open spec fn signed_registry_text(json: Seq<char>) -> Seq<char> {
    let entries = match json_object_of(json) {
        Some(e) => e,
        None => no_entries(),
    };
    match json_object_text(entries.remove("signature"@).remove("public_key"@)) {
        Some(t) => t,
        None => "{}"@,
    }
}

/// Takes the `signature` and `public_key` fields out of a registry
/// document, giving the text its signature covers.
pub fn strip_signature_fields(json_str: &str) -> (r: String)
    ensures
        r@ == signed_registry_text(json_str@),
{
    let mut obj = match parse_json_object(json_str) {
        Some(m) => m,
        None => new_json_map(),
    };
    remove_json_key(&mut obj, "signature");
    remove_json_key(&mut obj, "public_key");
    match json_map_to_string(&obj) {
        Some(s) => s,
        None => String::from_str("{}"),
    }
}

// ---------------------------------------------------------------------------
// Registry signature
// ---------------------------------------------------------------------------

/// How checking a registry's signature ends.
pub enum RegistryCheck {
    /// The signature verifies: the registry's plugins are trusted.
    Verified,
    /// The signature was checked and rejected, with the reason reported.
    Rejected(Seq<char>),
    /// The registry could not be checked at all.
    Failed(Seq<char>),
}

pub open spec fn utf8(s: Seq<char>) -> Seq<u8> {
    vstd::utf8::encode_utf8(s)
}

/// The outcome of checking the signature of a registry whose signed text,
/// with the signature fields taken out, is `payload`.
pub open spec fn registry_check(signature: Option<Seq<char>>, public_key: Option<Seq<char>>, payload: Seq<char>) -> RegistryCheck {
    match signature {
        None => RegistryCheck::Failed("Registry missing signature field"@),
        Some(sig_hex) => match public_key {
            None => RegistryCheck::Failed("Registry missing public_key field"@),
            Some(key_hex) => match hex_decoded(utf8(sig_hex)) {
                None => RegistryCheck::Failed("Invalid signature hex: "@ + hex_error_text(utf8(sig_hex))),
                Some(sig) => match hex_decoded(utf8(key_hex)) {
                    None => RegistryCheck::Failed("Invalid public_key hex: "@ + hex_error_text(utf8(key_hex))),
                    Some(key) => if key.len() != 32 {
                        RegistryCheck::Rejected("Public key must be 32 bytes"@)
                    } else if !ed25519_point_decodes(key) {
                        RegistryCheck::Failed("Invalid public key: "@ + "signature error: Cannot decompress Edwards point"@)
                    } else if sig.len() != 64 {
                        RegistryCheck::Failed("Invalid signature: "@ + "signature error"@)
                    } else if ed25519_accepts(key, utf8(payload), sig) {
                        RegistryCheck::Verified
                    } else {
                        RegistryCheck::Rejected("Signature verification failed"@)
                    },
                },
            },
        },
    }
}

pub open spec fn opt_view(o: Option<String>) -> Option<Seq<char>> {
    match o {
        Some(s) => Some(s@),
        None => None,
    }
}

/// Whether a verification result reports the given outcome.
pub open spec fn reports_check(r: Result<RegistryVerifyResult, String>, check: RegistryCheck, plugins: Vec<PluginEntry>) -> bool {
    match check {
        RegistryCheck::Verified => r matches Ok(v) && v.valid && v.plugins == plugins && v.error is None,
        RegistryCheck::Rejected(m) => r matches Ok(v) && !v.valid && v.plugins@.len() == 0
            && v.error == Some(v.error->0) && v.error->0@ == m,
        RegistryCheck::Failed(m) => r matches Err(e) && e@ == m,
    }
}

fn concat(a: &str, b: &str) -> (r: String)
    ensures
        r@ == a@ + b@,
{
    let mut r = String::from_str(a);
    r.append(b);
    r
}

/// Checks the Ed25519 signature of a registry read from the document
/// `json_str`: the hex-encoded signature and public key it carries must
/// verify over the document with the `signature` and `public_key` fields
/// taken out. Only a verified registry hands its plugins on.
pub fn verify_registry_signature(registry: Registry, json_str: &str) -> (r: Result<RegistryVerifyResult, String>)
    ensures
        reports_check(
            r,
            registry_check(opt_view(registry.signature), opt_view(registry.public_key), signed_registry_text(json_str@)),
            registry.plugins,
        ),
{
    let sig_hex = match &registry.signature {
        Some(s) => s,
        None => return Err(String::from_str("Registry missing signature field")),
    };
    let key_hex = match &registry.public_key {
        Some(k) => k,
        None => return Err(String::from_str("Registry missing public_key field")),
    };
    let sig = match hex_decode(sig_hex.as_str()) {
        Ok(b) => b,
        Err(e) => return Err(concat("Invalid signature hex: ", e.as_str())),
    };
    let key = match hex_decode(key_hex.as_str()) {
        Ok(b) => b,
        Err(e) => return Err(concat("Invalid public_key hex: ", e.as_str())),
    };
    if key.len() != 32 {
        return Ok(RegistryVerifyResult {
            valid: false,
            plugins: Vec::new(),
            error: Some(String::from_str("Public key must be 32 bytes")),
        });
    }
    match check_verifying_key(key.as_slice()) {
        Ok(()) => {},
        Err(e) => return Err(concat("Invalid public key: ", e.as_str())),
    }
    let canonical_json = strip_signature_fields(json_str);
    let payload = canonical_json.as_str().as_bytes();
    let sig = match signature_from_slice(sig.as_slice()) {
        Ok(s) => s,
        Err(e) => return Err(concat("Invalid signature: ", e.as_str())),
    };
    if ed25519_verify(key.as_slice(), payload, sig.as_slice()) {
        Ok(RegistryVerifyResult { valid: true, plugins: registry.plugins, error: None })
    } else {
        Ok(RegistryVerifyResult {
            valid: false,
            plugins: Vec::new(),
            error: Some(String::from_str("Signature verification failed")),
        })
    }
}

// ---------------------------------------------------------------------------
// GitHub repositories
// ---------------------------------------------------------------------------

/// The `(owner, repository)` of a GitHub repository URL: trailing slashes
/// are ignored, the URL must start with `https://github.com/`, and the
/// rest must have at least two `/`-separated segments.
pub open spec fn repo_url_spec(url: Seq<char>) -> Result<(Seq<char>, Seq<char>), Seq<char>> {
    let u = trim_end_char(url, '/');
    let prefix = "https://github.com/"@;
    if prefix.is_prefix_of(u) && split_on(u.skip(prefix.len() as int), '/').len() >= 2 {
        let parts = split_on(u.skip(prefix.len() as int), '/');
        Ok((parts[0], parts[1]))
    } else {
        Err("Invalid GitHub repo URL"@)
    }
}

/// The length of `s` without its trailing run of `c`.
fn trimmed_len(v: &Vec<char>, c: char) -> (n: usize)
    ensures
        n <= v@.len(),
        v@.take(n as int) == trim_end_char(v@, c),
{
    let mut n = v.len();
    assert(v@.take(n as int) =~= v@);
    while n > 0 && v[n - 1] == c
        invariant
            n <= v@.len(),
            trim_end_char(v@.take(n as int), c) == trim_end_char(v@, c),
        decreases n,
    {
        assert(v@.take(n as int).drop_last() =~= v@.take(n - 1));
        n = n - 1;
    }
    n
}

/// Splits a GitHub repository URL into its owner and repository name.
pub fn parse_repo_url(url: &str) -> (r: Result<(String, String), String>)
    ensures
        match r {
            Ok((owner, repo)) => repo_url_spec(url@) == Ok::<(Seq<char>, Seq<char>), Seq<char>>((owner@, repo@)),
            Err(e) => repo_url_spec(url@) == Err::<(Seq<char>, Seq<char>), Seq<char>>(e@),
        },
{
    let v = chars_of(url);
    let n = trimmed_len(&v, '/');
    let trimmed = substring(url, 0, n);
    let prefix = "https://github.com/";
    if str_starts_with(trimmed.as_str(), prefix) {
        let plen = chars_of(prefix).len();
        let path = substring(trimmed.as_str(), plen, n);
        let parts = split_str(path.as_str(), '/');
        proof {
            assert(path@ =~= trimmed@.skip(prefix@.len() as int));
        }
        if parts.len() >= 2 {
            let owner = parts[0].clone();
            let repo = parts[1].clone();
            return Ok((owner, repo));
        }
    }
    Err(String::from_str("Invalid GitHub repo URL"))
}

/// A repository that is not empty and has no `/` in it.
pub open spec fn is_path_segment(s: Seq<char>) -> bool {
    forall|i: int| 0 <= i < s.len() ==> s[i] != '/'
}

proof fn lemma_split_two(owner: Seq<char>, repo: Seq<char>)
    requires
        is_path_segment(owner),
        is_path_segment(repo),
    ensures
        split_on(owner + seq!['/'] + repo, '/') == seq![owner, repo],
{
    let s = owner + seq!['/'] + repo;
    crate::text::lemma_first_pos_is(s, '/', owner.len() as int);
    crate::text::lemma_first_pos_is(repo, '/', repo.len() as int);
    assert(s.take(owner.len() as int) =~= owner);
    assert(s.skip(owner.len() as int + 1) =~= repo);
    assert(split_on(repo, '/') == seq![repo]);
}

/// A repository URL built from an owner and a repository name gives them
/// back.
pub proof fn lemma_repo_url_round_trip(owner: Seq<char>, repo: Seq<char>)
    requires
        is_path_segment(owner),
        is_path_segment(repo),
        repo.len() > 0,
    ensures
        repo_url_spec("https://github.com/"@ + owner + seq!['/'] + repo) == Ok::<(Seq<char>, Seq<char>), Seq<char>>((owner, repo)),
{
    let prefix = "https://github.com/"@;
    let url = prefix + owner + seq!['/'] + repo;
    assert(url.last() == repo.last());
    assert(trim_end_char(url, '/') == url);
    assert(prefix.is_prefix_of(url)) by {
        assert(url.take(prefix.len() as int) =~= prefix);
    }
    assert(url.skip(prefix.len() as int) =~= owner + seq!['/'] + repo);
    lemma_split_two(owner, repo);
}

/// Trailing slashes do not change what a repository URL names.
pub proof fn lemma_repo_url_trailing_slash(url: Seq<char>)
    ensures
        repo_url_spec(url.push('/')) == repo_url_spec(url),
{
    assert(url.push('/').drop_last() =~= url);
}

/// The first segment of a `/`-separated path.
pub open spec fn first_segment(name: Seq<char>) -> Seq<char> {
    split_on(name, '/')[0]
}

/// A directory entry of a GitHub zipball whose top directory is named
/// after the repository (`<repo>-<commit>`).
pub open spec fn is_root_entry(name: Seq<char>, repo: Seq<char>) -> bool {
    name.len() > 0 && name.last() == '/' && (repo + "-"@).is_prefix_of(first_segment(name))
}

/// The top directory of the first root entry among `names`.
pub open spec fn zip_root_spec(names: Seq<Seq<char>>, repo: Seq<char>) -> Option<Seq<char>>
    decreases names.len(),
{
    if names.len() == 0 {
        None
    } else if is_root_entry(names[0], repo) {
        Some(first_segment(names[0]))
    } else {
        zip_root_spec(names.drop_first(), repo)
    }
}

/// The top directory of `name` when it is a root entry for `repo`.
fn root_of_entry(name: &str, marker: &str, repo: &str) -> (r: Option<String>)
    requires
        marker@ == repo@ + "-"@,
    ensures
        opt_view(r) == if is_root_entry(name@, repo@) { Some(first_segment(name@)) } else { None },
{
    let v = chars_of(name);
    if v.len() > 0 && v[v.len() - 1] == '/' {
        let parts = split_str(name, '/');
        proof {
            crate::text::lemma_split_nonempty(name@, '/');
            assert(crate::text::views(parts@)[0] == parts@[0]@);
        }
        if str_starts_with(parts[0].as_str(), marker) {
            return Some(parts[0].clone());
        }
    }
    None
}

/// Finds the top directory of a repository's zipball among its entry names.
pub fn find_zip_root(entry_names: &[String], repo: &str) -> (r: Option<String>)
    ensures
        opt_view(r) == zip_root_spec(crate::text::views(entry_names@), repo@),
{
    let mut marker = String::from_str(repo);
    marker.append("-");
    let mut i: usize = 0;
    assert(crate::text::views(entry_names@).skip(0) =~= crate::text::views(entry_names@));
    while i < entry_names.len()
        invariant
            i <= entry_names@.len(),
            marker@ == repo@ + "-"@,
            zip_root_spec(crate::text::views(entry_names@), repo@)
                == zip_root_spec(crate::text::views(entry_names@).skip(i as int), repo@),
        decreases entry_names@.len() - i,
    {
        let name = entry_names[i].as_str();
        proof {
            let rest = crate::text::views(entry_names@).skip(i as int);
            assert(rest.drop_first() =~= crate::text::views(entry_names@).skip(i + 1));
            assert(rest[0] == name@);
        }
        let found = root_of_entry(name, marker.as_str(), repo);
        if found.is_some() {
            return found;
        }
        i = i + 1;
    }
    None
}

// ---------------------------------------------------------------------------
// Zipballs (zip)
// ---------------------------------------------------------------------------

#[verifier::external_type_specification]
#[verifier::external_body]
#[verifier::reject_recursive_types(T)]
pub struct ExCursor<T>(std::io::Cursor<T>);

#[verifier::external_type_specification]
#[verifier::external_body]
#[verifier::reject_recursive_types(R)]
pub struct ExZipArchive<R>(zip::ZipArchive<R>);

/// A downloaded zip archive, read from memory.
pub type Zipball = zip::ZipArchive<std::io::Cursor<Vec<u8>>>;

/// Names what an archive holds, entry by entry in its central directory:
/// the entry's name as `ZipArchive::by_index_raw` reads it, or the text of
/// the error that reading reports.
pub uninterp spec fn zip_entries(archive: Zipball) -> Seq<Result<Seq<char>, Seq<char>>>;

/// Names what `ZipArchive::new` gives for the bytes of an archive: its
/// entries (as `zip_entries` holds them), or the text of its error.
pub uninterp spec fn zipball_opened(bytes: Seq<u8>) -> Result<Seq<Result<Seq<char>, Seq<char>>>, Seq<char>>;

/// Calls `zip::ZipArchive::new` on the bytes. Trusted: the outcome depends
/// on the bytes alone and is named `zipball_opened`.
#[verifier::external_body]
fn open_zipball(bytes: Vec<u8>) -> (r: Result<Zipball, String>)
    ensures
        match zipball_opened(bytes@) {
            Ok(entries) => r matches Ok(a) && zip_entries(a) == entries,
            Err(e) => r matches Err(m) && m@ == e,
        },
{
    zip::ZipArchive::new(std::io::Cursor::new(bytes)).map_err(|e| e.to_string())
}

/// Calls `ZipArchive::len`. Trusted: it counts the entries.
#[verifier::external_body]
fn zipball_len(archive: &Zipball) -> (n: usize)
    ensures
        n == zip_entries(*archive).len(),
{
    archive.len()
}

/// Calls `ZipArchive::by_index_raw` and takes the entry's name. Trusted:
/// the outcome is the entry's in `zip_entries`, and reading moves only the
/// reader's position, so what the archive holds stays.
#[verifier::external_body]
fn zipball_entry_name(archive: &mut Zipball, i: usize) -> (r: Result<String, String>)
    requires
        i < zip_entries(*old(archive)).len(),
    ensures
        zip_entries(*final(archive)) == zip_entries(*old(archive)),
        match zip_entries(*old(archive))[i as int] {
            Ok(name) => r matches Ok(n) && n@ == name,
            Err(e) => r matches Err(m) && m@ == e,
        },
{
    match archive.by_index_raw(i) {
        Ok(file) => Ok(file.name().to_string()),
        Err(e) => Err(e.to_string()),
    }
}

/// Reads a downloaded zipball.
pub fn read_zipball(bytes: Vec<u8>) -> (r: Result<Zipball, String>)
    ensures
        match zipball_opened(bytes@) {
            Ok(entries) => r matches Ok(a) && zip_entries(a) == entries,
            Err(e) => r matches Err(m) && m@ == "Failed to read zip archive: "@ + e,
        },
{
    match open_zipball(bytes) {
        Ok(a) => Ok(a),
        Err(e) => {
            let mut msg = String::from_str("Failed to read zip archive: ");
            msg.append(e.as_str());
            Err(msg)
        },
    }
}

/// The top directory of a repository's zipball, read entry by entry until
/// the first root entry; an entry that cannot be read before it stops the
/// search with its error.
pub open spec fn zipball_root_spec(entries: Seq<Result<Seq<char>, Seq<char>>>, repo: Seq<char>) -> Result<Seq<char>, Seq<char>>
    decreases entries.len(),
{
    if entries.len() == 0 {
        Err("Could not find plugin root in zipball"@)
    } else {
        match entries[0] {
            Err(e) => Err("Failed to read zip entry: "@ + e),
            Ok(name) => if is_root_entry(name, repo) {
                Ok(first_segment(name))
            } else {
                zipball_root_spec(entries.drop_first(), repo)
            },
        }
    }
}

/// An entry read before the root was found: readable and not a root entry.
pub open spec fn passed_over(entry: Result<Seq<char>, Seq<char>>, repo: Seq<char>) -> bool {
    entry is Ok && !is_root_entry(entry->Ok_0, repo)
}

/// The root of a zipball is the top directory of its first root entry,
/// provided every entry before it could be read; the search stops with the
/// error of the first unreadable entry before any root; and it fails only
/// when every entry was read and none is a root entry.
pub proof fn lemma_zipball_root_is_first_root_entry(entries: Seq<Result<Seq<char>, Seq<char>>>, repo: Seq<char>)
    ensures
        zipball_root_spec(entries, repo) is Ok ==> exists|i: int| {
            &&& 0 <= i < entries.len()
            &&& (#[trigger] entries[i]) is Ok
            &&& is_root_entry(entries[i]->Ok_0, repo)
            &&& zipball_root_spec(entries, repo)->Ok_0 == first_segment(entries[i]->Ok_0)
            &&& forall|j: int| 0 <= j < i ==> passed_over(#[trigger] entries[j], repo)
        },
        (forall|j: int| 0 <= j < entries.len() ==> passed_over(#[trigger] entries[j], repo))
            <==> zipball_root_spec(entries, repo) == Err::<Seq<char>, Seq<char>>("Could not find plugin root in zipball"@)
                && forall|j: int| 0 <= j < entries.len() ==> (#[trigger] entries[j]) is Ok,
        forall|i: int| 0 <= i < entries.len() && (#[trigger] entries[i]) is Err
            && (forall|j: int| 0 <= j < i ==> passed_over(#[trigger] entries[j], repo))
            ==> zipball_root_spec(entries, repo) == Err::<Seq<char>, Seq<char>>("Failed to read zip entry: "@ + entries[i]->Err_0),
    decreases entries.len(),
{
    if entries.len() > 0 {
        let rest = entries.drop_first();
        lemma_zipball_root_is_first_root_entry(rest, repo);
        assert forall|i: int| 0 <= i < rest.len() implies #[trigger] rest[i] == entries[i + 1] by {}
        if passed_over(entries[0], repo) {
            assert(zipball_root_spec(entries, repo) == zipball_root_spec(rest, repo));
            if zipball_root_spec(entries, repo) is Ok {
                let i = choose|i: int| {
                    &&& 0 <= i < rest.len()
                    &&& (#[trigger] rest[i]) is Ok
                    &&& is_root_entry(rest[i]->Ok_0, repo)
                    &&& zipball_root_spec(rest, repo)->Ok_0 == first_segment(rest[i]->Ok_0)
                    &&& forall|j: int| 0 <= j < i ==> passed_over(#[trigger] rest[j], repo)
                };
                assert(entries[i + 1] == rest[i]);
                assert forall|j: int| 0 <= j < i + 1 implies passed_over(#[trigger] entries[j], repo) by {
                    if j > 0 {
                        assert(entries[j] == rest[j - 1]);
                    }
                }
            }
            if forall|j: int| 0 <= j < entries.len() ==> passed_over(#[trigger] entries[j], repo) {
                assert forall|j: int| 0 <= j < rest.len() implies passed_over(#[trigger] rest[j], repo) by {
                    assert(passed_over(entries[j + 1], repo));
                }
                assert forall|j: int| 0 <= j < entries.len() implies (#[trigger] entries[j]) is Ok by {
                    assert(passed_over(entries[j], repo));
                }
            }
            if zipball_root_spec(entries, repo) == Err::<Seq<char>, Seq<char>>("Could not find plugin root in zipball"@)
                && forall|j: int| 0 <= j < entries.len() ==> (#[trigger] entries[j]) is Ok {
                assert forall|j: int| 0 <= j < rest.len() implies (#[trigger] rest[j]) is Ok by {
                    assert(entries[j + 1] is Ok);
                }
                assert forall|j: int| 0 <= j < entries.len() implies passed_over(#[trigger] entries[j], repo) by {
                    if j > 0 {
                        assert(passed_over(rest[j - 1], repo));
                    }
                }
            }
            assert forall|i: int| 0 <= i < entries.len() && (#[trigger] entries[i]) is Err
                && (forall|j: int| 0 <= j < i ==> passed_over(#[trigger] entries[j], repo))
                implies zipball_root_spec(entries, repo) == Err::<Seq<char>, Seq<char>>("Failed to read zip entry: "@ + entries[i]->Err_0) by {
                assert(i > 0);
                assert(rest[i - 1] == entries[i]);
                assert forall|j: int| 0 <= j < i - 1 implies passed_over(#[trigger] rest[j], repo) by {
                    assert(passed_over(entries[j + 1], repo));
                }
            }
        } else {
            assert(!passed_over(entries[0], repo));
            if entries[0] is Ok {
                assert(is_root_entry(entries[0]->Ok_0, repo));
            }
        }
    }
}

pub open spec fn string_result_view(r: Result<String, String>) -> Result<Seq<char>, Seq<char>> {
    match r {
        Ok(s) => Ok(s@),
        Err(e) => Err(e@),
    }
}

/// Finds the top directory of a repository's zipball (`<repo>-<commit>`).
pub fn zipball_root(archive: &mut Zipball, repo: &str) -> (r: Result<String, String>)
    ensures
        zip_entries(*final(archive)) == zip_entries(*old(archive)),
        string_result_view(r) == zipball_root_spec(zip_entries(*old(archive)), repo@),
{
    let ghost entries = zip_entries(*archive);
    let mut marker = String::from_str(repo);
    marker.append("-");
    let n = zipball_len(archive);
    let mut i: usize = 0;
    assert(entries.skip(0) =~= entries);
    while i < n
        invariant
            i <= n,
            n == entries.len(),
            zip_entries(*archive) == entries,
            entries == zip_entries(*old(archive)),
            marker@ == repo@ + "-"@,
            zipball_root_spec(entries, repo@) == zipball_root_spec(entries.skip(i as int), repo@),
        decreases n - i,
    {
        proof {
            assert(entries.skip(i as int).drop_first() =~= entries.skip(i + 1));
            assert(entries.skip(i as int)[0] == entries[i as int]);
        }
        match zipball_entry_name(archive, i) {
            Ok(name) => {
                let found = root_of_entry(name.as_str(), marker.as_str(), repo);
                match found {
                    Some(root) => {
                        return Ok(root);
                    },
                    None => {},
                }
            },
            Err(e) => {
                let mut msg = String::from_str("Failed to read zip entry: ");
                msg.append(e.as_str());
                return Err(msg);
            },
        }
        i = i + 1;
    }
    Err(String::from_str("Could not find plugin root in zipball"))
}

/// The zipball of a repository's default branch.
pub fn zipball_url(owner: &str, repo: &str) -> (r: String)
    ensures
        r@ == "https://github.com/"@ + owner@ + "/"@ + repo@ + "/zipball"@,
{
    let mut r = String::from_str("https://github.com/");
    r.append(owner);
    r.append("/");
    r.append(repo);
    r.append("/zipball");
    r
}

/// The GitHub API address of a repository's README.
pub fn readme_url(owner: &str, repo: &str) -> (r: String)
    ensures
        r@ == "https://api.github.com/repos/"@ + owner@ + "/"@ + repo@ + "/readme"@,
{
    let mut r = String::from_str("https://api.github.com/repos/");
    r.append(owner);
    r.append("/");
    r.append(repo);
    r.append("/readme");
    r
}

} // verus!
