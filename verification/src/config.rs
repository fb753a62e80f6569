//! Application configuration: the built-in defaults that are not numeric
//! geometry, the migration of the old default clock quote, and the list of
//! fields that only the backend writes (kept from disk when the front end
//! saves its start-up snapshot).
use vstd::prelude::*;
use crate::text::{owned, str_eq};

verus! {

/// Platform server address (deliberately not configurable).
pub const DEFAULT_SERVER_URL: &'static str = "http://x-hub.xfactor.top";

/// Default extension registry manifest.
pub const DEFAULT_MARKET_ENDPOINT: &'static str = "https://x-hub-dist-1251402600.cos.ap-guangzhou.myqcloud.com/extensions/registry.json";

/// Default update manifest.
pub const DEFAULT_UPDATE_ENDPOINT: &'static str = "https://x-hub-dist-1251402600.cos.ap-guangzhou.myqcloud.com/releases/update.json";

/// The former default clock quote; a config still holding it counts as "not customised".
pub const LEGACY_CLOCK_QUOTE: &'static str = "日拱一卒，功不唐捐。";

/// An AI chat model entry (OpenAI-compatible endpoint; the key is not stored on disk).
#[derive(Clone, Debug)]
pub struct ChatModelConfig {
    pub id: String,
    pub name: String,
    pub provider_name: String,
    pub base_url: String,
    pub model: String,
    pub api_key: String,
    pub is_default: bool,
    pub has_api_key: bool,
}

pub fn default_paste_method() -> (r: String)
    ensures
        r@ == "auto"@,
{
    owned("auto")
}

pub fn default_chat_panel_side() -> (r: String)
    ensures
        r@ == "right"@,
{
    owned("right")
}

pub fn default_true() -> (r: bool)
    ensures
        r,
{
    true
}

pub fn default_quote_source() -> (r: String)
    ensures
        r@ == "online"@,
{
    owned("online")
}

pub fn default_runtime_strategy() -> (r: String)
    ensures
        r@ == "auto"@,
{
    owned("auto")
}

pub fn default_update_endpoint() -> (r: String)
    ensures
        r@ == DEFAULT_UPDATE_ENDPOINT@,
{
    owned(DEFAULT_UPDATE_ENDPOINT)
}

pub fn default_update_interval_hours() -> (r: u64)
    ensures
        r == 4,
{
    4
}

pub fn default_market_endpoint() -> (r: String)
    ensures
        r@ == DEFAULT_MARKET_ENDPOINT@,
{
    owned(DEFAULT_MARKET_ENDPOINT)
}

pub open spec fn default_buttons_view() -> Seq<Seq<char>> {
    seq![
        "view:dashboard"@,
        "view:notes"@,
        "view:suda"@,
        "act:search"@,
        "act:clipboard"@,
        "view:settings"@,
    ]
}

/// The six default buttons of the floating ball's ring menu.
pub fn default_floating_ball_buttons() -> (r: Vec<String>)
    ensures
        r@.map_values(|s: String| s@) == default_buttons_view(),
{
    let mut v: Vec<String> = Vec::new();
    v.push(owned("view:dashboard"));
    v.push(owned("view:notes"));
    v.push(owned("view:suda"));
    v.push(owned("act:search"));
    v.push(owned("act:clipboard"));
    v.push(owned("view:settings"));
    assert(v@.map_values(|s: String| s@) =~= default_buttons_view());
    v
}

/// One ready-made DeepSeek entry (the user may edit or remove it).
pub fn default_chat_models() -> (r: Vec<ChatModelConfig>)
    ensures
        r@.len() == 1,
        r@[0].id@ == "deepseek-default"@,
        r@[0].name@ == "DeepSeek"@,
        r@[0].provider_name@ == "DeepSeek"@,
        r@[0].base_url@ == "https://api.deepseek.com/v1"@,
        r@[0].model@ == "deepseek-v4-flash"@,
        r@[0].api_key@.len() == 0,
        r@[0].is_default,
        !r@[0].has_api_key,
{
    let mut v: Vec<ChatModelConfig> = Vec::new();
    v.push(
        ChatModelConfig {
            id: owned("deepseek-default"),
            name: owned("DeepSeek"),
            provider_name: owned("DeepSeek"),
            base_url: owned("https://api.deepseek.com/v1"),
            model: owned("deepseek-v4-flash"),
            api_key: String::new(),
            is_default: true,
            has_api_key: false,
        },
    );
    v
}

/// Migration of the clock quote: the former default becomes empty (random
/// quotes); any other quote is kept.
pub fn normalize_clock_quote(quote: String) -> (r: String)
    ensures
        quote@ == LEGACY_CLOCK_QUOTE@ ==> r@.len() == 0,
        quote@ != LEGACY_CLOCK_QUOTE@ ==> r@ == quote@,
{
    if str_eq(quote.as_str(), LEGACY_CLOCK_QUOTE) {
        String::new()
    } else {
        quote
    }
}

pub open spec fn backend_managed_view() -> Seq<Seq<char>> {
    seq![
        "chat_models"@,
        "chat_window_mode"@,
        "chat_window_width"@,
        "chat_window_height"@,
        "chat_window_x"@,
        "chat_window_y"@,
        "chat_window_pinned"@,
        "floating_ball_enabled"@,
        "floating_ball_auto_hide"@,
        "floating_ball_with_main"@,
        "floating_ball_buttons"@,
        "floating_ball_x"@,
        "floating_ball_y"@,
        "dev_extensions"@,
        "dev_mode_enabled"@,
        "skill_roots"@,
        "skipped_update_version"@,
    ]
}

/// Fields written only by backend commands; a whole-config save from the
/// front end (its start-up snapshot) must keep their values from disk.
pub fn backend_managed_fields() -> (r: Vec<&'static str>)
    ensures
        r@.map_values(|s: &str| s@) == backend_managed_view(),
{
    let mut v: Vec<&'static str> = Vec::new();
    v.push("chat_models");
    v.push("chat_window_mode");
    v.push("chat_window_width");
    v.push("chat_window_height");
    v.push("chat_window_x");
    v.push("chat_window_y");
    v.push("chat_window_pinned");
    v.push("floating_ball_enabled");
    v.push("floating_ball_auto_hide");
    v.push("floating_ball_with_main");
    v.push("floating_ball_buttons");
    v.push("floating_ball_x");
    v.push("floating_ball_y");
    v.push("dev_extensions");
    v.push("dev_mode_enabled");
    v.push("skill_roots");
    v.push("skipped_update_version");
    assert(v@.map_values(|s: &str| s@) =~= backend_managed_view());
    v
}

/// `name` is one of the backend-managed fields.
pub fn is_backend_managed(name: &str) -> (r: bool)
    ensures
        r == backend_managed_view().contains(name@),
{
    let fields = backend_managed_fields();
    let ghost view = fields@.map_values(|s: &str| s@);
    let mut i: usize = 0;
    while i < fields.len()
        invariant
            i <= fields@.len(),
            view == fields@.map_values(|s: &str| s@),
            view == backend_managed_view(),
            forall|j: int| 0 <= j < i ==> view[j] != name@,
        decreases fields@.len() - i,
    {
        if str_eq(fields[i], name) {
            assert(view[i as int] == name@);
            return true;
        }
        i = i + 1;
    }
    assert(!view.contains(name@));
    false
}

/// Where a field of a merged configuration takes its value from.
#[derive(Clone, Copy, Debug, PartialEq, Eq, Structural)]
pub enum FieldSource {
    /// the front end's submitted configuration
    Submitted,
    /// the configuration currently on disk
    Disk,
}

/// The "disk is authoritative" merge of a whole-config save: backend-managed
/// fields keep the disk value, every other field takes the submitted one.
pub fn merge_source(field: &str) -> (r: FieldSource)
    ensures
        backend_managed_view().contains(field@) ==> r == FieldSource::Disk,
        !backend_managed_view().contains(field@) ==> r == FieldSource::Submitted,
{
    if is_backend_managed(field) {
        FieldSource::Disk
    } else {
        FieldSource::Submitted
    }
}


/// The merged value of field `i`: from disk for backend-managed fields, from
/// the submission otherwise.
pub open spec fn merged_value<V>(submitted: Seq<(String, V)>, disk: Seq<(String, V)>, i: int) -> V {
    if backend_managed_view().contains(submitted[i].0@) {
        disk[i].1
    } else {
        submitted[i].1
    }
}

/// The "disk is authoritative" merge of a whole-config save, field by field
/// over the two configurations' fields (same names in the same order): every
/// backend-managed field keeps its value on disk, every other field takes
/// the submitted value.
pub fn merge_disk_authoritative<V>(submitted: Vec<(String, V)>, disk: Vec<(String, V)>) -> (r: Vec<(String, V)>)
    requires
        submitted@.len() == disk@.len(),
        forall|i: int| 0 <= i < submitted@.len() ==> #[trigger] submitted@[i].0@ == disk@[i].0@,
    ensures
        r@.len() == submitted@.len(),
        forall|i: int|
            0 <= i < r@.len() ==> #[trigger] r@[i].0 == submitted@[i].0 && r@[i].1 == merged_value(
                submitted@,
                disk@,
                i,
            ),
{
    let ghost s0 = submitted@;
    let ghost d0 = disk@;
    let n = submitted.len();
    let mut s = submitted;
    let mut d = disk;
    let mut rev: Vec<(String, V)> = Vec::new();
    while s.len() > 0
        invariant
            s@.len() == d@.len(),
            s@.len() + rev@.len() == n,
            n == s0.len(),
            s0.len() == d0.len(),
            forall|i: int| 0 <= i < s@.len() ==> s@[i] == s0[i] && d@[i] == d0[i],
            forall|j: int|
                0 <= j < rev@.len() ==> #[trigger] rev@[j].0 == s0[n - 1 - j].0 && rev@[j].1
                    == merged_value(s0, d0, n - 1 - j),
        decreases s@.len(),
    {
        let (k, sv) = s.pop().unwrap();
        let (_dk, dv) = d.pop().unwrap();
        let v = if is_backend_managed(k.as_str()) { dv } else { sv };
        rev.push((k, v));
    }
    let mut out: Vec<(String, V)> = Vec::new();
    while rev.len() > 0
        invariant
            rev@.len() + out@.len() == n,
            n == s0.len(),
            s0.len() == d0.len(),
            forall|j: int|
                0 <= j < rev@.len() ==> #[trigger] rev@[j].0 == s0[n - 1 - j].0 && rev@[j].1
                    == merged_value(s0, d0, n - 1 - j),
            forall|i: int|
                0 <= i < out@.len() ==> #[trigger] out@[i].0 == s0[i].0 && out@[i].1 == merged_value(
                    s0,
                    d0,
                    i,
                ),
        decreases rev@.len(),
    {
        let item = rev.pop().unwrap();
        out.push(item);
    }
    out
}

} // verus!
