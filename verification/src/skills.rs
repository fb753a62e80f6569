//! The built-in extension-development skill bundle: its metadata (read from
//! the YAML front matter of `SKILL.md`), its content hash, and the status of
//! an install target. Directory probing and file writes are done by the host.
use sha2::Digest;
use vstd::prelude::*;
use vstd::utf8::{decode_utf8, encode_utf8, valid_utf8};
use crate::text::{
    chars_of, find_char, find_char_from, owned, slice_vec, string_of, strip_both, trim_matches_vec,
    trim_vec, trim_ws, vec_eq_str, vec_starts_with,
};

verus! {

/// Skill id (the `name` of its front matter).
pub const SKILL_ID: &'static str = "x-hub-extension";
/// Directory the skill is installed into under a skills root.
pub const SKILL_DIR_NAME: &'static str = "x-hub-extension";
/// Install marker file (source, version and content hash of the install).
pub const MARKER_FILE: &'static str = ".xhub-skill.json";

/// One file of the bundle: path relative to the skill directory, and bytes.
#[derive(Clone, Debug)]
pub struct SkillFile {
    pub path: String,
    pub bytes: Vec<u8>,
}

/// Skill metadata shown in settings and used to judge installs.
#[derive(Clone, Debug)]
pub struct SkillInfo {
    pub id: String,
    pub name: String,
    pub description: String,
    /// directory name under a skills root
    pub dir_name: String,
    pub file_count: usize,
    /// total bytes
    pub size: u64,
    /// first 16 hex digits of the bundle's SHA-256
    pub hash: String,
    /// client version the bundle ships with
    pub app_version: String,
}

/// One install target (the skills root of an AI coding assistant).
#[derive(Clone, Debug)]
pub struct SkillTarget {
    pub label: String,
    pub path: String,
    /// auto (detected assistant directory) / custom (added by the user)
    pub kind: String,
    /// the skill directory exists under the root
    pub installed: bool,
    /// installed by this client with the current content
    pub up_to_date: bool,
    /// the directory exists but carries no marker (not installed by this client)
    pub foreign: bool,
    /// client version recorded in the marker
    pub installed_version: Option<String>,
}

/// Bundle metadata plus the status of every target.
#[derive(Clone, Debug)]
pub struct SkillOverview {
    pub skill: SkillInfo,
    pub targets: Vec<SkillTarget>,
}

// ---------------------------------------------------------------------------
// Front matter

/// End of the line starting at `i` (index of the next `\n`, or the end).
pub open spec fn line_end(s: Seq<char>, i: int) -> int {
    match find_char_from(s, '\n', i) {
        Some(e) => e,
        None => s.len() as int,
    }
}

/// The value of a `key: value` line after the prefix of length `plen`:
/// trimmed, quotes of either kind stripped, trimmed again.
pub open spec fn field_value(t: Seq<char>, plen: int) -> Seq<char> {
    trim_ws(strip_both(strip_both(trim_ws(t.subrange(plen, t.len() as int)), '"'), '\''))
}

/// Scans the lines from `pos` up to the closing `---` for `key:` with a
/// non-empty value.
pub open spec fn scan_fields(s: Seq<char>, pos: int, key: Seq<char>) -> Option<Seq<char>>
    decreases s.len() - pos,
{
    if pos < 0 || pos >= s.len() {
        None
    } else {
        let e = line_end(s, pos);
        let t = trim_ws(s.subrange(pos, e));
        let prefix = key.push(':');
        if t == "---"@ {
            None
        } else if prefix.len() <= t.len() && t.take(prefix.len() as int) == prefix && field_value(
            t,
            prefix.len() as int,
        ).len() > 0 {
            Some(field_value(t, prefix.len() as int))
        } else if e >= s.len() {
            None
        } else {
            proof {
                lemma_find_char_at_least(s, '\n', pos);
            }
            scan_fields(s, e + 1, key)
        }
    }
}

/// The value of `key` in the YAML front matter (between a first line `---`
/// and the next `---`), if present and non-empty.
pub open spec fn spec_front_matter_field(s: Seq<char>, key: Seq<char>) -> Option<Seq<char>> {
    if s.len() == 0 {
        None
    } else if trim_ws(s.subrange(0, line_end(s, 0))) != "---"@ {
        None
    } else {
        scan_fields(s, line_end(s, 0) + 1, key)
    }
}

fn line_end_exec(s: &Vec<char>, from: usize) -> (e: usize)
    requires
        from <= s@.len(),
    ensures
        e as int == line_end(s@, from as int),
        from <= e <= s@.len(),
{
    match find_char(s, '\n', from) {
        Some(e) => {
            proof {
                lemma_find_char_at_least(s@, '\n', from as int);
            }
            e
        },
        None => s.len(),
    }
}

pub proof fn lemma_find_char_at_least(s: Seq<char>, c: char, i: int)
    ensures
        find_char_from(s, c, i) matches Some(e) ==> i <= e < s.len(),
    decreases s.len() - i,
{
    if 0 <= i < s.len() && s[i] != c {
        lemma_find_char_at_least(s, c, i + 1);
    }
}

/// The value of `key` in the front matter of `content`.
pub fn front_matter_field(content: &str, key: &str) -> (r: Option<String>)
    ensures
        r matches Some(v) ==> spec_front_matter_field(content@, key@) == Some(v@),
        r is None ==> spec_front_matter_field(content@, key@) is None,
{
    let s = chars_of(content);
    let n = s.len();
    if n == 0 {
        return None;
    }
    let e0 = line_end_exec(&s, 0);
    let first = slice_vec(&s, 0, e0);
    let (a, b) = trim_vec(&first);
    let ft = slice_vec(&first, a, b);
    if !vec_eq_str(&ft, "---") {
        return None;
    }
    let mut prefix = chars_of(key);
    prefix.push(':');
    if e0 >= n {
        return None;
    }
    let mut pos: usize = e0 + 1;
    while pos < n
        invariant
            n == s@.len(),
            s@ == content@,
            prefix@ == key@.push(':'),
            spec_front_matter_field(content@, key@) == scan_fields(s@, pos as int, key@),
        decreases n - pos,
    {
        let e = line_end_exec(&s, pos);
        let line = slice_vec(&s, pos, e);
        let (a, b) = trim_vec(&line);
        let t = slice_vec(&line, a, b);
        if vec_eq_str(&t, "---") {
            return None;
        }
        if vec_starts_with(&t, &prefix) {
            let rest = slice_vec(&t, prefix.len(), t.len());
            let (a2, b2) = trim_vec(&rest);
            let r1 = slice_vec(&rest, a2, b2);
            let r2 = trim_matches_vec(&r1, '"');
            let r3 = trim_matches_vec(&r2, '\'');
            let (a3, b3) = trim_vec(&r3);
            if b3 > a3 {
                return Some(string_of(&r3, a3, b3));
            }
        }
        if e >= n {
            return None;
        }
        pos = e + 1;
    }
    None
}


// ---------------------------------------------------------------------------
// Ordering of paths

/// Lexicographic order of character sequences (by code point, which is the
/// byte order of their UTF-8 encodings).
pub open spec fn seq_le(a: Seq<char>, b: Seq<char>) -> bool
    decreases a.len(),
{
    if a.len() == 0 {
        true
    } else if b.len() == 0 {
        false
    } else if a[0] != b[0] {
        a[0] < b[0]
    } else {
        seq_le(a.drop_first(), b.drop_first())
    }
}

pub proof fn lemma_seq_le_total(a: Seq<char>, b: Seq<char>)
    ensures
        seq_le(a, b) || seq_le(b, a),
    decreases a.len(),
{
    if a.len() > 0 && b.len() > 0 && a[0] == b[0] {
        lemma_seq_le_total(a.drop_first(), b.drop_first());
    }
}

pub proof fn lemma_seq_le_trans(a: Seq<char>, b: Seq<char>, c: Seq<char>)
    requires
        seq_le(a, b),
        seq_le(b, c),
    ensures
        seq_le(a, c),
    decreases a.len(),
{
    if a.len() > 0 && b.len() > 0 && c.len() > 0 && a[0] == b[0] && b[0] == c[0] {
        lemma_seq_le_trans(a.drop_first(), b.drop_first(), c.drop_first());
    }
}

fn chars_le(a: &Vec<char>, b: &Vec<char>) -> (r: bool)
    ensures
        r == seq_le(a@, b@),
{
    let mut i: usize = 0;
    assert(a@.skip(0) =~= a@ && b@.skip(0) =~= b@);
    while i < a.len() && i < b.len() && a[i] == b[i]
        invariant
            i <= a@.len(),
            i <= b@.len(),
            seq_le(a@, b@) == seq_le(a@.skip(i as int), b@.skip(i as int)),
        decreases a@.len() - i,
    {
        assert(a@.skip(i as int).drop_first() =~= a@.skip(i + 1));
        assert(b@.skip(i as int).drop_first() =~= b@.skip(i + 1));
        i = i + 1;
    }
    if i == a.len() {
        true
    } else if i == b.len() {
        false
    } else {
        a[i] < b[i]
    }
}

/// `p` lists every index below `n` exactly once.
pub open spec fn is_permutation(p: Seq<int>, n: int) -> bool {
    &&& p.len() == n
    &&& forall|i: int| 0 <= i < p.len() ==> 0 <= #[trigger] p[i] < n
    &&& forall|i: int, j: int| 0 <= i < j < p.len() ==> p[i] != p[j]
}

/// The keys taken in the order `p` never decrease.
pub open spec fn sorted_by(keys: Seq<Seq<char>>, p: Seq<int>) -> bool {
    forall|i: int, j: int| 0 <= i < j < p.len() ==> seq_le(keys[p[i]], keys[p[j]])
}

pub open spec fn as_ints(v: Seq<usize>) -> Seq<int> {
    v.map_values(|x: usize| x as int)
}

/// A stable insertion sort of the indices `0..keys.len()` by key.
fn sorted_order(keys: &Vec<Vec<char>>) -> (order: Vec<usize>)
    ensures
        is_permutation(as_ints(order@), keys@.len() as int),
        sorted_by(keys@.map_values(|k: Vec<char>| k@), as_ints(order@)),
{
    let ghost kv = keys@.map_values(|k: Vec<char>| k@);
    let mut order: Vec<usize> = Vec::new();
    let mut k: usize = 0;
    while k < keys.len()
        invariant
            k <= keys@.len(),
            kv == keys@.map_values(|k: Vec<char>| k@),
            is_permutation(as_ints(order@), k as int),
            forall|i: int| 0 <= i < order@.len() ==> order@[i] < k,
            sorted_by(kv, as_ints(order@)),
        decreases keys@.len() - k,
    {
        // find the insertion point: after the last entry whose key is <= key k
        let mut j: usize = order.len();
        while j > 0 && !chars_le(&keys[order[j - 1]], &keys[k])
            invariant
                j <= order@.len(),
                k < keys@.len(),
                kv == keys@.map_values(|k: Vec<char>| k@),
                is_permutation(as_ints(order@), k as int),
                forall|i: int| 0 <= i < order@.len() ==> order@[i] < k,
                forall|i: int| j <= i < order@.len() ==> !seq_le(kv[order@[i] as int], kv[k as int]),
            decreases j,
        {
            assert(kv[order@[j - 1] as int] == keys@[order@[j - 1] as int]@);
            assert(kv[k as int] == keys@[k as int]@);
            j = j - 1;
        }
        let ghost old_order = as_ints(order@);
        order.insert(j, k);
        proof {
            let no = as_ints(order@);
            assert(no =~= old_order.insert(j as int, k as int));
            assert forall|a: int, b: int| 0 <= a < b < no.len() implies seq_le(kv[no[a]], kv[no[b]]) by {
                if b == j {
                    // entries before the insertion point are <= key k
                    if a < j - 1 {
                        lemma_seq_le_trans(kv[no[a]], kv[old_order[j - 1]], kv[k as int]);
                    }
                } else if a == j {
                    lemma_seq_le_total(kv[k as int], kv[no[b]]);
                } else if a < j && b > j {
                    if j > 0 {
                        if a < j - 1 {
                            lemma_seq_le_trans(kv[no[a]], kv[old_order[j - 1]], kv[k as int]);
                        }
                        lemma_seq_le_total(kv[k as int], kv[no[b]]);
                        lemma_seq_le_trans(kv[no[a]], kv[k as int], kv[no[b]]);
                    }
                }
            }
        }
        k = k + 1;
    }
    order
}


// ---------------------------------------------------------------------------
// Content hash

/// `sha2::Sha256::digest`: the SHA-256 digest of a byte sequence.
pub uninterp spec fn sha256_digest(data: Seq<u8>) -> Seq<u8>;

/// `sha2::Sha256::digest(data)`: the 32-byte SHA-256 digest, named by
/// `sha256_digest` (a function of the input bytes alone).
#[verifier::external_body]
fn sha256(data: &Vec<u8>) -> (r: Vec<u8>)
    ensures
        r@ == sha256_digest(data@),
        r@.len() == 32,
{
    sha2::Sha256::digest(data.as_slice()).to_vec()
}

/// `std::str::from_utf8`: the text of `bytes` when they are valid UTF-8.
#[verifier::external_body]
fn utf8_text(bytes: &[u8]) -> (r: Option<&str>)
    ensures
        r is Some <==> valid_utf8(bytes@),
        r matches Some(t) ==> t@ == decode_utf8(bytes@),
{
    match std::str::from_utf8(bytes) {
        Ok(t) => Some(t),
        Err(_) => None,
    }
}

/// Lower-case hexadecimal digit for `n` in `0..16`.
pub open spec fn hex_digit(n: int) -> char {
    if n < 10 { (48 + n) as char } else { (87 + n) as char }
}

/// Two lower-case hex digits per byte (`format!("{:x}", digest)`).
pub open spec fn hex_of(bytes: Seq<u8>) -> Seq<char>
    decreases bytes.len(),
{
    if bytes.len() == 0 {
        Seq::empty()
    } else {
        hex_of(bytes.drop_last()) + seq![hex_digit(bytes.last() as int / 16), hex_digit(bytes.last() as int % 16)]
    }
}

proof fn lemma_hex_len(bytes: Seq<u8>)
    ensures
        hex_of(bytes).len() == 2 * bytes.len(),
    decreases bytes.len(),
{
    if bytes.len() > 0 {
        lemma_hex_len(bytes.drop_last());
    }
}

fn hex_digit_exec(n: u8) -> (c: char)
    requires
        n < 16,
    ensures
        c == hex_digit(n as int),
{
    if n < 10 { (48 + n) as char } else { (87 + n) as char }
}

fn hex_lower(bytes: &Vec<u8>) -> (r: String)
    ensures
        r@ == hex_of(bytes@),
{
    let mut r = String::new();
    let mut i: usize = 0;
    while i < bytes.len()
        invariant
            i <= bytes@.len(),
            r@ == hex_of(bytes@.take(i as int)),
        decreases bytes@.len() - i,
    {
        let b = bytes[i];
        assert(bytes@.take(i + 1).drop_last() =~= bytes@.take(i as int));
        crate::text::push_char(&mut r, hex_digit_exec(b / 16));
        crate::text::push_char(&mut r, hex_digit_exec(b % 16));
        assert(r@ =~= hex_of(bytes@.take(i + 1)));
        i = i + 1;
    }
    assert(bytes@.take(bytes@.len() as int) =~= bytes@);
    r
}

/// What one file contributes to the hash: its path, a zero byte, its bytes.
pub open spec fn entry_bytes(f: SkillFile) -> Seq<u8> {
    encode_utf8(f.path@) + seq![0u8] + f.bytes@
}

/// The entries of `files` in the order `p`, concatenated.
pub open spec fn bundle_bytes(files: Seq<SkillFile>, p: Seq<int>) -> Seq<u8>
    decreases p.len(),
{
    if p.len() == 0 {
        Seq::empty()
    } else {
        bundle_bytes(files, p.drop_last()) + entry_bytes(files[p.last()])
    }
}

pub open spec fn path_views(files: Seq<SkillFile>) -> Seq<Seq<char>> {
    files.map_values(|f: SkillFile| f.path@)
}

/// The first 16 hex digits of the SHA-256 of the entries in order `p`.
pub open spec fn spec_bundle_hash(files: Seq<SkillFile>, p: Seq<int>) -> Seq<char> {
    hex_of(sha256_digest(bundle_bytes(files, p))).take(16)
}

fn append_bytes(buf: &mut Vec<u8>, b: &[u8])
    ensures
        final(buf)@ == old(buf)@ + b@,
{
    let mut i: usize = 0;
    let ghost start = buf@;
    while i < b.len()
        invariant
            i <= b@.len(),
            buf@ == start + b@.take(i as int),
        decreases b@.len() - i,
    {
        buf.push(b[i]);
        assert(buf@ =~= start + b@.take(i + 1));
        i = i + 1;
    }
    assert(b@.take(b@.len() as int) =~= b@);
}

/// Content hash of the bundle: files sorted by path, each contributing its
/// path, a zero byte and its bytes; first 16 hex digits of the SHA-256.
pub fn bundle_hash(files: &Vec<SkillFile>) -> (r: String)
    ensures
        exists|p: Seq<int>|
            is_permutation(p, files@.len() as int) && sorted_by(path_views(files@), p) && r@
                == spec_bundle_hash(files@, p),
{
    let mut keys: Vec<Vec<char>> = Vec::new();
    let mut i: usize = 0;
    while i < files.len()
        invariant
            i <= files@.len(),
            keys@.len() == i,
            forall|j: int| 0 <= j < i ==> #[trigger] keys@[j]@ == files@[j].path@,
        decreases files@.len() - i,
    {
        keys.push(chars_of(files[i].path.as_str()));
        i = i + 1;
    }
    assert(keys@.map_values(|k: Vec<char>| k@) =~= path_views(files@));
    let order = sorted_order(&keys);
    let ghost p = as_ints(order@);
    let mut buf: Vec<u8> = Vec::new();
    let mut k: usize = 0;
    while k < order.len()
        invariant
            k <= order@.len(),
            p == as_ints(order@),
            is_permutation(p, files@.len() as int),
            buf@ == bundle_bytes(files@, p.take(k as int)),
        decreases order@.len() - k,
    {
        proof {
            assert(0 <= p[k as int] < files@.len());
        }
        let f = &files[order[k]];
        let ghost before = buf@;
        append_bytes(&mut buf, f.path.as_str().as_bytes());
        buf.push(0u8);
        append_bytes(&mut buf, f.bytes.as_slice());
        assert(p.take(k + 1).drop_last() =~= p.take(k as int));
        assert(buf@ =~= before + entry_bytes(files@[p[k as int]]));
        k = k + 1;
    }
    assert(p.take(order@.len() as int) =~= p);
    let digest = sha256(&buf);
    let hex = hex_lower(&digest);
    proof {
        lemma_hex_len(digest@);
    }
    let chars = chars_of(hex.as_str());
    let r = string_of(&chars, 0, 16);
    proof {
        assert(r@ =~= spec_bundle_hash(files@, p));
        assert(sorted_by(path_views(files@), p));
    }
    r
}

/// Total size of the bundle in bytes.
pub open spec fn total_size(files: Seq<SkillFile>) -> int
    decreases files.len(),
{
    if files.len() == 0 {
        0
    } else {
        total_size(files.drop_last()) + files.last().bytes@.len()
    }
}

/// The bundle's total size, or `u64::MAX` if it were larger.
pub open spec fn capped_size(files: Seq<SkillFile>) -> int {
    if total_size(files) <= u64::MAX { total_size(files) } else { u64::MAX as int }
}

pub fn bundle_size(files: &Vec<SkillFile>) -> (r: u64)
    ensures
        r == capped_size(files@),
{
    let mut sum: u64 = 0;
    let mut i: usize = 0;
    while i < files.len()
        invariant
            i <= files@.len(),
            sum == capped_size(files@.take(i as int)),
        decreases files@.len() - i,
    {
        assert(files@.take(i + 1).drop_last() =~= files@.take(i as int));
        sum = match sum.checked_add(files[i].bytes.len() as u64) {
            Some(x) => x,
            None => u64::MAX,
        };
        i = i + 1;
    }
    assert(files@.take(files@.len() as int) =~= files@);
    sum
}

// ---------------------------------------------------------------------------
// Metadata and targets

/// The text of the first `SKILL.md` of the bundle ("" when absent or not UTF-8).
pub open spec fn skill_md_text(files: Seq<SkillFile>) -> Seq<char>
    decreases files.len(),
{
    if files.len() == 0 {
        Seq::empty()
    } else if files[0].path@ == "SKILL.md"@ {
        if valid_utf8(files[0].bytes@) { decode_utf8(files[0].bytes@) } else { Seq::empty() }
    } else {
        skill_md_text(files.drop_first())
    }
}

fn skill_md<'a>(files: &'a Vec<SkillFile>) -> (r: &'a str)
    ensures
        r@ == skill_md_text(files@),
{
    let mut i: usize = 0;
    proof {
        reveal_strlit("");
        assert(files@.skip(0) =~= files@);
    }
    while i < files.len()
        invariant
            i <= files@.len(),
            skill_md_text(files@) == skill_md_text(files@.skip(i as int)),
            ""@ == Seq::<char>::empty(),
        decreases files@.len() - i,
    {
        assert(files@.skip(i as int).drop_first() =~= files@.skip(i + 1));
        assert(files@.skip(i as int)[0] == files@[i as int]);
        if crate::text::str_eq(files[i].path.as_str(), "SKILL.md") {
            return match utf8_text(files[i].bytes.as_slice()) {
                Some(t) => t,
                None => "",
            };
        }
        i = i + 1;
    }
    assert(files@.skip(i as int).len() == 0);
    proof {
        reveal_strlit("");
    }
    ""
}

pub open spec fn opt_or(v: Option<Seq<char>>, d: Seq<char>) -> Seq<char> {
    match v {
        Some(x) => x,
        None => d,
    }
}

/// Metadata of the bundle: name and description from the front matter of
/// `SKILL.md` (name falls back to the skill id), file count, size, hash.
pub fn skill_info(files: &Vec<SkillFile>, app_version: &str) -> (r: SkillInfo)
    requires
    ensures
        r.id@ == SKILL_ID@,
        r.name@ == opt_or(spec_front_matter_field(skill_md_text(files@), "name"@), SKILL_ID@),
        r.description@ == opt_or(spec_front_matter_field(skill_md_text(files@), "description"@), Seq::empty()),
        r.dir_name@ == SKILL_DIR_NAME@,
        r.file_count == files@.len(),
        r.size == capped_size(files@),
        exists|p: Seq<int>|
            is_permutation(p, files@.len() as int) && sorted_by(path_views(files@), p) && r.hash@
                == spec_bundle_hash(files@, p),
        r.app_version@ == app_version@,
{
    let md = skill_md(files);
    let name = match front_matter_field(md, "name") {
        Some(n) => n,
        None => owned(SKILL_ID),
    };
    let description = match front_matter_field(md, "description") {
        Some(d) => d,
        None => String::new(),
    };
    SkillInfo {
        id: owned(SKILL_ID),
        name,
        description,
        dir_name: owned(SKILL_DIR_NAME),
        file_count: files.len(),
        size: bundle_size(files),
        hash: bundle_hash(files),
        app_version: owned(app_version),
    }
}

/// What the install marker holds (when it could be read and parsed).
#[derive(Clone, Debug)]
pub struct MarkerInfo {
    pub hash: Option<String>,
    pub app_version: Option<String>,
}

pub open spec fn opt_str_view(v: Option<String>) -> Option<Seq<char>> {
    match v {
        Some(s) => Some(s@),
        None => None,
    }
}

/// `serde_json::from_str::<serde_json::Value>` on the text of an install
/// marker, then its string fields `hash` and `appVersion`: `None` when the
/// text is not JSON, a field is `None` when absent or not a string. A
/// function of the text alone.
pub uninterp spec fn marker_fields(text: Seq<char>) -> Option<(Option<Seq<char>>, Option<Seq<char>>)>;

/// The fields of a parsed marker, by their views.
pub open spec fn marker_view(m: Option<MarkerInfo>) -> Option<(Option<Seq<char>>, Option<Seq<char>>)> {
    match m {
        Some(m) => Some((opt_str_view(m.hash), opt_str_view(m.app_version))),
        None => None,
    }
}

/// Parses an install marker (`serde_json`), named by `marker_fields`.
#[verifier::external_body]
fn parse_marker(text: &str) -> (r: Option<MarkerInfo>)
    ensures
        marker_fields(text@) == marker_view(r),
{
    let v: serde_json::Value = match serde_json::from_str(text) {
        Ok(v) => v,
        Err(_) => return None,
    };
    let hash = v.get("hash").and_then(serde_json::Value::as_str).map(str::to_string);
    let app_version = v.get("appVersion").and_then(serde_json::Value::as_str).map(str::to_string);
    Some(MarkerInfo { hash, app_version })
}

/// The marker's fields when the marker file exists, was read and parses.
pub open spec fn marker_of(marker_exists: bool, text: Option<&str>) -> Option<(Option<Seq<char>>, Option<Seq<char>>)> {
    if marker_exists && text is Some {
        marker_fields(text.unwrap()@)
    } else {
        None
    }
}

/// A target's status holds these fields, given the fields of its parsed
/// marker (`None` when there is none, or it could not be read or parsed).
pub open spec fn status_says(
    r: SkillTarget,
    label: Seq<char>,
    path: Seq<char>,
    kind: Seq<char>,
    installed: bool,
    marker_exists: bool,
    marker: Option<(Option<Seq<char>>, Option<Seq<char>>)>,
    bundle: Seq<char>,
) -> bool {
    &&& r.label@ == label
    &&& r.path@ == path
    &&& r.kind@ == kind
    &&& r.installed == installed
    &&& r.up_to_date == (marker is Some && marker.unwrap().0 == Some(bundle))
    &&& r.foreign == (installed && !marker_exists)
    &&& opt_str_view(r.installed_version) == (if marker is Some {
        marker.unwrap().1
    } else {
        None
    })
}

/// Status of one target from what is on disk: whether the skill directory
/// exists, whether the marker file exists, and the marker's text when it
/// could be read.
pub fn target_status(
    label: &str,
    path: &str,
    kind: &str,
    installed: bool,
    marker_exists: bool,
    marker_text: Option<&str>,
    bundle: &str,
) -> (r: SkillTarget)
    ensures
        status_says(r, label@, path@, kind@, installed, marker_exists, marker_of(marker_exists, marker_text), bundle@),
{
    let mut marker: Option<MarkerInfo> = None;
    if marker_exists {
        if let Some(text) = marker_text {
            marker = parse_marker(text);
        }
    }
    target_status_from(label, path, kind, installed, marker_exists, marker, bundle)
}

/// Status of one target given its parsed marker (`None` when the marker is
/// missing, unreadable or not JSON).
pub fn target_status_from(
    label: &str,
    path: &str,
    kind: &str,
    installed: bool,
    marker_exists: bool,
    marker: Option<MarkerInfo>,
    bundle: &str,
) -> (r: SkillTarget)
    ensures
        status_says(r, label@, path@, kind@, installed, marker_exists, marker_view(marker), bundle@),
{
    let mut up_to_date = false;
    let mut installed_version: Option<String> = None;
    if let Some(m) = marker {
        up_to_date = match &m.hash {
            Some(h) => crate::text::str_eq(h.as_str(), bundle),
            None => false,
        };
        installed_version = m.app_version;
    }
    SkillTarget {
        label: owned(label),
        path: owned(path),
        kind: owned(kind),
        installed,
        up_to_date,
        foreign: installed && !marker_exists,
        installed_version,
    }
}

pub const ERR_INSTALLED_CONFLICT: &'static str = "CONFLICT: 已安装，需确认后覆盖更新";
pub const ERR_FOREIGN_CONFLICT: &'static str = "CONFLICT: 目标已存在同名目录且不是本客户端安装的，需确认后覆盖";
pub const ERR_NOT_INSTALLED: &'static str = "NOT_FOUND: 该目录下没有已安装的技能";

/// An install over an existing skill directory needs confirmation (`force`);
/// the message tells whether the directory is this client's install.
pub fn install_conflict(target_exists: bool, marker_exists: bool, force: bool) -> (r: Option<String>)
    ensures
        !(target_exists && !force) ==> r is None,
        target_exists && !force && marker_exists ==> (r matches Some(m) && m@ == ERR_INSTALLED_CONFLICT@),
        target_exists && !force && !marker_exists ==> (r matches Some(m) && m@ == ERR_FOREIGN_CONFLICT@),
{
    if target_exists && !force {
        if marker_exists {
            Some(owned(ERR_INSTALLED_CONFLICT))
        } else {
            Some(owned(ERR_FOREIGN_CONFLICT))
        }
    } else {
        None
    }
}

// ---------------------------------------------------------------------------
// Replacing the skill directory through a temporary copy

/// One file-system step of an install. The bundle is written to a temporary
/// directory first and then renamed into place, so a failure part way never
/// leaves a half-written install; an existing install is kept as a backup
/// until the new one is in place, and put back if the swap fails.
#[derive(Clone, Copy, Debug, PartialEq, Eq, Structural)]
pub enum InstallAction {
    /// remove a leftover temporary directory (a failure is ignored)
    ClearTemp,
    /// write the bundle and the install marker into the temporary directory
    WriteTemp,
    /// remove a leftover backup directory (a failure is ignored)
    ClearBackup,
    /// rename the installed directory to the backup
    BackupTarget,
    /// rename the temporary directory to the installed one
    SwapIn,
    /// remove the backup (a failure is ignored)
    DropBackup,
    /// rename the backup back to the installed directory (a failure is ignored)
    Restore,
    /// remove the temporary directory (a failure is ignored)
    DropTemp,
    /// the install is complete
    Done,
    /// the install failed with the error of the last step that mattered
    Fail,
}

/// The step after `last` (`None` at the start), given whether `last`
/// succeeded and whether the installed and the backup directories exist now.
pub open spec fn spec_install_next(
    last: Option<InstallAction>,
    ok: bool,
    target_exists: bool,
    backup_exists: bool,
) -> InstallAction {
    match last {
        None => InstallAction::ClearTemp,
        Some(a) => match a {
            InstallAction::ClearTemp => InstallAction::WriteTemp,
            InstallAction::WriteTemp => if !ok {
                InstallAction::Fail
            } else if target_exists {
                InstallAction::ClearBackup
            } else {
                InstallAction::SwapIn
            },
            InstallAction::ClearBackup => InstallAction::BackupTarget,
            InstallAction::BackupTarget => if ok { InstallAction::SwapIn } else { InstallAction::Fail },
            InstallAction::SwapIn => if ok {
                InstallAction::DropBackup
            } else if backup_exists {
                InstallAction::Restore
            } else {
                InstallAction::DropTemp
            },
            InstallAction::DropBackup => InstallAction::Done,
            InstallAction::Restore => InstallAction::DropTemp,
            InstallAction::DropTemp => InstallAction::Fail,
            InstallAction::Done => InstallAction::Done,
            InstallAction::Fail => InstallAction::Fail,
        },
    }
}

/// Decides the next step of an install (see `InstallAction`).
pub fn install_next(last: Option<InstallAction>, ok: bool, target_exists: bool, backup_exists: bool) -> (r:
    InstallAction)
    ensures
        r == spec_install_next(last, ok, target_exists, backup_exists),
{
    match last {
        None => InstallAction::ClearTemp,
        Some(a) => match a {
            InstallAction::ClearTemp => InstallAction::WriteTemp,
            InstallAction::WriteTemp => if !ok {
                InstallAction::Fail
            } else if target_exists {
                InstallAction::ClearBackup
            } else {
                InstallAction::SwapIn
            },
            InstallAction::ClearBackup => InstallAction::BackupTarget,
            InstallAction::BackupTarget => if ok { InstallAction::SwapIn } else { InstallAction::Fail },
            InstallAction::SwapIn => if ok {
                InstallAction::DropBackup
            } else if backup_exists {
                InstallAction::Restore
            } else {
                InstallAction::DropTemp
            },
            InstallAction::DropBackup => InstallAction::Done,
            InstallAction::Restore => InstallAction::DropTemp,
            InstallAction::DropTemp => InstallAction::Fail,
            InstallAction::Done => InstallAction::Done,
            InstallAction::Fail => InstallAction::Fail,
        },
    }
}

/// An install replaces the skill directory only as a whole: a directory
/// already in place is renamed to the backup before the new one is swapped
/// in; the install completes only after a successful swap, which drops the
/// backup; a failed swap puts the backup back, clears the temporary copy and
/// fails; and a failure while writing the temporary copy or taking the
/// backup ends the install before anything is swapped.
pub proof fn law_install_replaces_atomically()
    ensures
        forall|target_exists: bool, backup_exists: bool|
            #![trigger spec_install_next(Some(InstallAction::WriteTemp), true, target_exists, backup_exists)]
            target_exists ==> spec_install_next(Some(InstallAction::WriteTemp), true, target_exists, backup_exists)
                == InstallAction::ClearBackup,
        forall|ok: bool, target_exists: bool, backup_exists: bool|
            #[trigger] spec_install_next(Some(InstallAction::ClearBackup), ok, target_exists, backup_exists)
                == InstallAction::BackupTarget,
        forall|ok: bool, target_exists: bool, backup_exists: bool, a: InstallAction|
            #[trigger] spec_install_next(Some(a), ok, target_exists, backup_exists) == InstallAction::SwapIn ==> (
            a == InstallAction::BackupTarget && ok) || (a == InstallAction::WriteTemp && ok && !target_exists),
        forall|ok: bool, target_exists: bool, backup_exists: bool, a: InstallAction|
            #[trigger] spec_install_next(Some(a), ok, target_exists, backup_exists) == InstallAction::Done ==> a
                == InstallAction::DropBackup || a == InstallAction::Done,
        forall|ok: bool, target_exists: bool, backup_exists: bool, a: InstallAction|
            #[trigger] spec_install_next(Some(a), ok, target_exists, backup_exists) == InstallAction::DropBackup
                ==> a == InstallAction::SwapIn && ok,
        forall|target_exists: bool, backup_exists: bool|
            #![trigger spec_install_next(Some(InstallAction::SwapIn), false, target_exists, backup_exists)]
            backup_exists ==> spec_install_next(Some(InstallAction::SwapIn), false, target_exists, backup_exists)
                == InstallAction::Restore,
        forall|ok: bool, target_exists: bool, backup_exists: bool|
            #[trigger] spec_install_next(Some(InstallAction::Restore), ok, target_exists, backup_exists)
                == InstallAction::DropTemp,
        forall|ok: bool, target_exists: bool, backup_exists: bool|
            #[trigger] spec_install_next(Some(InstallAction::DropTemp), ok, target_exists, backup_exists)
                == InstallAction::Fail,
        forall|target_exists: bool, backup_exists: bool, a: InstallAction|
            (a == InstallAction::WriteTemp || a == InstallAction::BackupTarget) ==> #[trigger] spec_install_next(
                Some(a),
                false,
                target_exists,
                backup_exists,
            ) == InstallAction::Fail,
{
}

// ---------------------------------------------------------------------------
// The content hash is determined by the bundle

proof fn lemma_seq_le_antisym(a: Seq<char>, b: Seq<char>)
    requires
        seq_le(a, b),
        seq_le(b, a),
    ensures
        a == b,
    decreases a.len(),
{
    if a.len() > 0 {
        lemma_seq_le_antisym(a.drop_first(), b.drop_first());
        assert(a =~= seq![a[0]] + a.drop_first());
        assert(b =~= seq![b[0]] + b.drop_first());
    } else {
        assert(a =~= b);
    }
}

/// A permutation of `0..n` lists every index.
proof fn lemma_permutation_covers(p: Seq<int>, n: int, x: int)
    requires
        is_permutation(p, n),
        0 <= x < n,
    ensures
        p.contains(x),
{
    assert(p.no_duplicates());
    p.unique_seq_to_set();
    vstd::set_lib::lemma_int_range(0, n);
    assert(p.to_set().subset_of(vstd::set_lib::set_int_range(0, n))) by {
        assert forall|y: int| p.to_set().contains(y) implies vstd::set_lib::set_int_range(0, n).contains(y) by {
            let j = choose|j: int| 0 <= j < p.len() && p[j] == y;
            assert(0 <= p[j] < n);
        }
    }
    vstd::seq_lib::seq_to_set_is_finite(p);
    vstd::set_lib::lemma_subset_equality(p.to_set(), vstd::set_lib::set_int_range(0, n));
    assert(vstd::set_lib::set_int_range(0, n).contains(x));
    assert(p.to_set().contains(x));
}

/// Two duplicate-free orders of the same indices, both sorted by keys that
/// are pairwise distinct, are the same order.
proof fn lemma_sorted_order_unique(keys: Seq<Seq<char>>, p: Seq<int>, q: Seq<int>)
    requires
        p.no_duplicates(),
        q.no_duplicates(),
        forall|x: int| p.contains(x) <==> q.contains(x),
        forall|i: int| 0 <= i < p.len() ==> 0 <= #[trigger] p[i] < keys.len(),
        forall|i: int, j: int| 0 <= i < keys.len() && 0 <= j < keys.len() && i != j ==> keys[i] != keys[j],
        sorted_by(keys, p),
        sorted_by(keys, q),
    ensures
        p == q,
    decreases p.len(),
{
    if p.len() == 0 {
        if q.len() > 0 {
            assert(q.contains(q[0]));
        }
        assert(p =~= q);
    } else {
        assert(p.contains(p[0]));
        assert(q.len() > 0);
        let a = p[0];
        let b = q[0];
        assert(q.contains(b));
        let jb = choose|j: int| 0 <= j < p.len() && p[j] == b;
        let ja = choose|j: int| 0 <= j < q.len() && q[j] == a;
        if a != b {
            assert(seq_le(keys[a], keys[b])) by {
                assert(jb > 0);
            }
            assert(seq_le(keys[b], keys[a])) by {
                assert(ja > 0);
            }
            lemma_seq_le_antisym(keys[a], keys[b]);
            assert(false);
        }
        let p2 = p.drop_first();
        let q2 = q.drop_first();
        assert forall|x: int| p2.contains(x) <==> q2.contains(x) by {
            if p2.contains(x) {
                let i = choose|i: int| 0 <= i < p2.len() && p2[i] == x;
                assert(p[i + 1] == x);
                assert(x != a);
                assert(p.contains(x));
                let j = choose|j: int| 0 <= j < q.len() && q[j] == x;
                assert(j != 0);
                assert(q2[j - 1] == x);
            }
            if q2.contains(x) {
                let i = choose|i: int| 0 <= i < q2.len() && q2[i] == x;
                assert(q[i + 1] == x);
                assert(x != b);
                assert(q.contains(x));
                let j = choose|j: int| 0 <= j < p.len() && p[j] == x;
                assert(j != 0);
                assert(p2[j - 1] == x);
            }
        }
        assert(sorted_by(keys, p2)) by {
            assert forall|i: int, j: int| 0 <= i < j < p2.len() implies seq_le(keys[p2[i]], keys[p2[j]]) by {
                assert(p2[i] == p[i + 1] && p2[j] == p[j + 1]);
            }
        }
        assert(sorted_by(keys, q2)) by {
            assert forall|i: int, j: int| 0 <= i < j < q2.len() implies seq_le(keys[q2[i]], keys[q2[j]]) by {
                assert(q2[i] == q[i + 1] && q2[j] == q[j + 1]);
            }
        }
        lemma_sorted_order_unique(keys, p2, q2);
        assert(p =~= seq![a] + p2);
        assert(q =~= seq![b] + q2);
    }
}

/// Paths of the bundle's files are pairwise distinct (as in any directory).
pub open spec fn distinct_paths(files: Seq<SkillFile>) -> bool {
    forall|i: int, j: int| 0 <= i < files.len() && 0 <= j < files.len() && i != j ==> files[i].path@ != files[j].path@
}

/// The content hash does not depend on anything but the bundle: any two
/// orders of its files sorted by path give the same hash (there is only one).
pub proof fn law_bundle_hash_is_determined(files: Seq<SkillFile>, p: Seq<int>, q: Seq<int>)
    requires
        distinct_paths(files),
        is_permutation(p, files.len() as int),
        is_permutation(q, files.len() as int),
        sorted_by(path_views(files), p),
        sorted_by(path_views(files), q),
    ensures
        p == q,
        spec_bundle_hash(files, p) == spec_bundle_hash(files, q),
{
    let n = files.len() as int;
    let keys = path_views(files);
    assert forall|x: int| p.contains(x) <==> q.contains(x) by {
        if p.contains(x) {
            let i = choose|i: int| 0 <= i < p.len() && p[i] == x;
            assert(0 <= p[i] < n);
            lemma_permutation_covers(q, n, x);
        }
        if q.contains(x) {
            let i = choose|i: int| 0 <= i < q.len() && q[i] == x;
            assert(0 <= q[i] < n);
            lemma_permutation_covers(p, n, x);
        }
    }
    assert forall|i: int, j: int| 0 <= i < keys.len() && 0 <= j < keys.len() && i != j implies keys[i] != keys[j] by {
        assert(keys[i] == files[i].path@ && keys[j] == files[j].path@);
    }
    lemma_sorted_order_unique(keys, p, q);
}

} // verus!
