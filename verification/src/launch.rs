//! How the model server is launched: the settings, the prompt cache that belongs
//! to them, and the command line.

use crate::digest;
use crate::settings;
use crate::settings::NumberError;
use crate::text;
use vstd::prelude::*;
use vstd::string::*;

verus! {

/// The context size where none is set.
pub const DEFAULT_CTX_SIZE: u32 = 131072;

/// Launch settings.
#[derive(Debug)]
pub struct LlamaCppLaunchConfig {
    pub model_path: String,
    pub port: u16,
    /// Places in the server's list of devices; none means CPU only.
    pub gpu: Vec<u32>,
    /// Whether the devices were chosen. Only a choice overrides what the
    /// environment masks.
    pub gpu_explicit: bool,
    pub ctx_size: Option<u32>,
    pub parallel: Option<u32>,
    pub server_bin: String,
    pub model_url: Option<String>,
    pub model_sha256: Option<String>,
    pub mmproj_path: Option<String>,
    pub mmproj_url: Option<String>,
    pub mmproj_sha256: Option<String>,
    /// Whether vision is served; left open, it is where its file is there.
    pub vision: Option<bool>,
    pub kv_cache: String,
    pub mmap: Option<bool>,
    pub n_cpu_moe: Option<u32>,
}

/// Launch settings as texts, as far as they are set.
#[derive(Debug)]
pub struct LaunchValues {
    pub model_path: Option<String>,
    pub port: u16,
    pub gpu: Option<String>,
    pub ctx_size: Option<String>,
    pub parallel: Option<String>,
    pub server_bin: Option<String>,
    /// The server that lies beside the program, where there is one.
    pub sibling_server: Option<String>,
    pub model_url: Option<String>,
    pub model_sha256: Option<String>,
    pub mmproj_path: Option<String>,
    pub mmproj_url: Option<String>,
    pub mmproj_sha256: Option<String>,
    pub vision: Option<String>,
    pub kv_cache: Option<String>,
    pub mmap: Option<String>,
    pub n_cpu_moe: Option<String>,
}

/// The devices that a value names, and whether that is a choice.
pub open spec fn devices_of(value: Option<Seq<char>>) -> Result<(Seq<u32>, bool), NumberError> {
    match settings::filled(value) {
        None => Ok((seq![0u32], false)),
        Some(v) => if text::lower(text::trim(v)) == text::lower("none"@) {
            Ok((Seq::empty(), true))
        } else {
            let parts = text::split_on(v, ',');
            match settings::numbers_of(parts, parts.len() as int) {
                Ok(list) => Ok((list, true)),
                Err(e) => Err(e),
            }
        },
    }
}

/// The number that a value is, without whitespace round it.
pub open spec fn bare_number(value: Option<Seq<char>>) -> Option<nat> {
    match settings::filled(value) {
        Some(v) => text::parse_unsigned(v, u32::MAX as nat),
        None => None,
    }
}

fn read_bare(value: &Option<String>) -> (r: Option<u32>)
    ensures
        match r {
            Some(n) => bare_number(text::optional(*value)) == Some(n as nat),
            None => bare_number(text::optional(*value)) is None,
        },
{
    match value {
        Some(v) => {
            if text::str_blank(v.as_str()) {
                return None;
            }
            let cs = text::chars_of(v.as_str());
            match text::read_unsigned(cs.as_slice(), u32::MAX as u64) {
                Some(n) => Some(n as u32),
                None => None,
            }
        },
        None => None,
    }
}

fn read_devices(value: &Option<String>) -> (r: Result<(Vec<u32>, bool), NumberError>)
    ensures
        match devices_of(text::optional(*value)) {
            Ok((list, chosen)) => r matches Ok((v, c)) && v@ == list && c == chosen,
            Err(e) => r matches Err(f) && f == e,
        },
{
    match value {
        Some(v) => {
            if text::str_blank(v.as_str()) {
                let mut first: Vec<u32> = Vec::new();
                first.push(0);
                assert(first@ =~= seq![0u32]);
                return Ok((first, false));
            }
            let trimmed = text::str_trim(v.as_str());
            if text::same_ignoring_case(trimmed.as_str(), "none") {
                let none: Vec<u32> = Vec::new();
                assert(none@ =~= Seq::empty());
                return Ok((none, true));
            }
            match settings::parse_numbers(v.as_str()) {
                Ok(list) => Ok((list, true)),
                Err(e) => Err(e),
            }
        },
        None => {
            let mut first: Vec<u32> = Vec::new();
            first.push(0);
            assert(first@ =~= seq![0u32]);
            Ok((first, false))
        },
    }
}

fn or_text(value: Option<String>, usual: &str) -> (r: String)
    ensures
        r@ == match settings::filled(text::optional(value)) {
            Some(v) => v,
            None => usual@,
        },
{
    match settings::nonblank(value) {
        Some(v) => v,
        None => usual.to_string(),
    }
}

pub open spec fn no_model_message() -> Seq<char> {
    "no llama.cpp model path configured; set `llamacpp.model_path` in config.toml or pass --llama-model-path"@
}

/// Which server is run: the one that is set, else the one beside the program, else
/// the one that is found by name.
pub open spec fn server_of(set: Option<Seq<char>>, sibling: Option<Seq<char>>) -> Seq<char> {
    match settings::filled(set) {
        Some(v) => v,
        None => match sibling {
            Some(s) => s,
            None => "llama-server"@,
        },
    }
}

impl LlamaCppLaunchConfig {
    /// The settings that the values come to.
    pub fn from_values(values: LaunchValues) -> (r: Result<Self, String>)
        ensures
            match settings::filled(text::optional(values.model_path)) {
                None => r matches Err(m) && m@ == no_model_message(),
                Some(model) => match devices_of(text::optional(values.gpu)) {
                    Err(e) => r matches Err(m) && m@ == "invalid MILLIE_LLAMACPP_GPU value: "@
                        + e.words(),
                    Ok((gpu, chosen)) => r matches Ok(c) && {
                        &&& c.model_path@ == model
                        &&& c.port == values.port
                        &&& c.gpu@ == gpu
                        &&& c.gpu_explicit == chosen
                        &&& c.ctx_size == Some(
                            match bare_number(text::optional(values.ctx_size)) {
                                Some(n) => n as u32,
                                None => DEFAULT_CTX_SIZE,
                            },
                        )
                        &&& match bare_number(text::optional(values.parallel)) {
                            Some(n) => c.parallel == Some(n as u32),
                            None => c.parallel is None,
                        }
                        &&& c.server_bin@ == server_of(
                            text::optional(values.server_bin),
                            text::optional(values.sibling_server),
                        )
                        &&& text::optional(c.model_url) == settings::filled(
                            text::optional(values.model_url),
                        )
                        &&& text::optional(c.model_sha256) == settings::filled(
                            text::optional(values.model_sha256),
                        )
                        &&& text::optional(c.mmproj_path) == settings::filled(
                            text::optional(values.mmproj_path),
                        )
                        &&& text::optional(c.mmproj_url) == settings::filled(
                            text::optional(values.mmproj_url),
                        )
                        &&& text::optional(c.mmproj_sha256) == settings::filled(
                            text::optional(values.mmproj_sha256),
                        )
                        &&& c.vision == settings::switch(
                            settings::filled(text::optional(values.vision)),
                        )
                        &&& c.kv_cache@ == match settings::filled(text::optional(values.kv_cache)) {
                            Some(v) => v,
                            None => "q8_0"@,
                        }
                        &&& c.mmap == match settings::filled(text::optional(values.mmap)) {
                            Some(v) => Some(settings::is_on(text::trim(v))),
                            None => None,
                        }
                        &&& match bare_number(text::optional(values.n_cpu_moe)) {
                            Some(n) => c.n_cpu_moe == Some(n as u32),
                            None => c.n_cpu_moe is None,
                        }
                    },
                },
            },
    {
        let model_path = match settings::nonblank(values.model_path) {
            Some(p) => p,
            None => {
                return Err(
                    "no llama.cpp model path configured; set `llamacpp.model_path` in config.toml or pass --llama-model-path".to_string(),
                );
            },
        };
        let (gpu, gpu_explicit) = match read_devices(&values.gpu) {
            Ok(p) => p,
            Err(e) => {
                let mut m = "invalid MILLIE_LLAMACPP_GPU value: ".to_string();
                m.append(e.message().as_str());
                return Err(m);
            },
        };
        let server_bin = match settings::nonblank(values.server_bin) {
            Some(b) => b,
            None => match values.sibling_server {
                Some(s) => s,
                None => "llama-server".to_string(),
            },
        };
        let vision_value = settings::nonblank(values.vision);
        let vision = match &vision_value {
            Some(v) => settings::parse_vision_setting(Some(v.as_str())),
            None => settings::parse_vision_setting(None),
        };
        let mmap = match settings::nonblank(values.mmap) {
            Some(v) => {
                proof {
                    text::trim_of_blank(v@);
                }
                Some(is_switched_on(v.as_str()))
            },
            None => None,
        };
        Ok(
            LlamaCppLaunchConfig {
                model_path,
                port: values.port,
                gpu,
                gpu_explicit,
                ctx_size: Some(
                    match read_bare(&values.ctx_size) {
                        Some(n) => n,
                        None => DEFAULT_CTX_SIZE,
                    },
                ),
                parallel: read_bare(&values.parallel),
                server_bin,
                model_url: settings::nonblank(values.model_url),
                model_sha256: settings::nonblank(values.model_sha256),
                mmproj_path: settings::nonblank(values.mmproj_path),
                mmproj_url: settings::nonblank(values.mmproj_url),
                mmproj_sha256: settings::nonblank(values.mmproj_sha256),
                vision,
                kv_cache: or_text(values.kv_cache, "q8_0"),
                mmap,
                n_cpu_moe: read_bare(&values.n_cpu_moe),
            },
        )
    }

    /// The address of the server.
    pub fn base_url(&self) -> (r: String)
        ensures
            r@ == "http://127.0.0.1:"@ + text::decimal(self.port as nat),
    {
        let mut out = "http://127.0.0.1:".to_string();
        out.append(text::decimal_string(self.port as u128).as_str());
        out
    }

    /// Whether vision is served with these settings.
    pub fn serves_vision(&self) -> (r: bool)
        ensures
            r == (self.vision != Some(false) && self.mmproj_path is Some),
    {
        let off: bool = match self.vision {
            Some(v) => !v,
            None => false,
        };
        !off && self.mmproj_path.is_some()
    }
}

fn is_switched_on(v: &str) -> (r: bool)
    ensures
        r == settings::is_on(text::trim(v@)),
{
    let trimmed = text::str_trim(v);
    let t = trimmed.as_str();
    text::same_text(t, "1") || text::same_text(t, "true") || text::same_text(t, "on")
}

// ---------------------------------------------------------------------------
// The prompt cache.

/// A number that may be missing, in words.
pub open spec fn number_words(n: Option<u32>) -> Seq<char> {
    match n {
        Some(v) => "Some("@ + text::decimal(v as nat) + ")"@,
        None => "None"@,
    }
}

/// A truth value that may be missing, in words.
pub open spec fn flag_words(b: Option<bool>) -> Seq<char> {
    match b {
        Some(true) => "Some(true)"@,
        Some(false) => "Some(false)"@,
        None => "None"@,
    }
}

/// The first `n` numbers with commas between them.
pub open spec fn list_words(list: Seq<u32>, n: int) -> Seq<char>
    decreases n,
{
    if n <= 0 {
        Seq::empty()
    } else if n == 1 {
        text::decimal(list[0] as nat)
    } else {
        list_words(list, n - 1) + ", "@ + text::decimal(list[n - 1] as nat)
    }
}

/// What stands for the digest of the model in the text that a prompt cache is known by.
pub open spec fn digest_words(c: LlamaCppLaunchConfig) -> Seq<char> {
    match c.model_sha256 {
        Some(s) => s@,
        None => Seq::empty(),
    }
}

/// All that the state of a prompt cache depends on. `server_id` tells builds of the
/// server apart.
pub open spec fn cache_identity(c: LlamaCppLaunchConfig, server_id: u64) -> Seq<char> {
    c.model_path@ + digest_words(c) + "ctx="@ + number_words(c.ctx_size) + "kv="@ + c.kv_cache@ + "mmap="@ + flag_words(c.mmap)
        + "ncmoe="@ + number_words(c.n_cpu_moe) + "gpu=["@ + list_words(
        c.gpu@,
        c.gpu@.len() as int,
    ) + "]vision="@ + flag_words(c.vision) + "srv="@ + text::decimal(server_id as nat)
}

/// The key of the prompt cache.
pub open spec fn cache_key(c: LlamaCppLaunchConfig, server_id: u64) -> Seq<char> {
    digest::sha256_hex(vstd::utf8::encode_utf8(cache_identity(c, server_id)))
}

fn words_of_number(n: Option<u32>) -> (r: String)
    ensures
        r@ == number_words(n),
{
    match n {
        Some(v) => {
            let mut out = "Some(".to_string();
            out.append(text::decimal_string(v as u128).as_str());
            out.append(")");
            out
        },
        None => "None".to_string(),
    }
}

fn words_of_flag(b: Option<bool>) -> (r: String)
    ensures
        r@ == flag_words(b),
{
    match b {
        Some(v) => if v {
            "Some(true)".to_string()
        } else {
            "Some(false)".to_string()
        },
        None => "None".to_string(),
    }
}

fn words_of_list(list: &Vec<u32>) -> (r: String)
    ensures
        r@ == list_words(list@, list@.len() as int),
{
    let mut out = String::new();
    let mut i: usize = 0;
    assert(out@ =~= Seq::empty());
    while i < list.len()
        invariant
            i <= list@.len(),
            out@ == list_words(list@, i as int),
        decreases list@.len() - i,
    {
        let ghost before = out@;
        if i > 0 {
            out.append(", ");
        }
        out.append(text::decimal_string(list[i] as u128).as_str());
        i += 1;
        assert(out@ =~= list_words(list@, i as int));
    }
    out
}

/// Where two texts agree, and a part of each ends at its first `c`, the parts agree
/// and so does what follows them.
proof fn parts_agree(a: Seq<char>, x: Seq<char>, b: Seq<char>, y: Seq<char>, c: char)
    requires
        forall|i: int| 0 <= i < a.len() ==> #[trigger] a[i] != c,
        forall|i: int| 0 <= i < b.len() ==> #[trigger] b[i] != c,
        a + seq![c] + x == b + seq![c] + y,
    ensures
        a == b,
        x == y,
{
    let s = a + seq![c] + x;
    let t = b + seq![c] + y;
    assert(s[a.len() as int] == c);
    assert(t[b.len() as int] == c);
    if a.len() < b.len() {
        assert(t[a.len() as int] == b[a.len() as int]);
    } else if b.len() < a.len() {
        assert(s[b.len() as int] == a[b.len() as int]);
    }
    assert(s.take(a.len() as int) =~= a);
    assert(t.take(b.len() as int) =~= b);
    assert(s.skip(a.len() as int + 1) =~= x);
    assert(t.skip(b.len() as int + 1) =~= y);
}

/// What follows the same beginning agrees where the whole does.
proof fn rests_agree(a: Seq<char>, x: Seq<char>, y: Seq<char>)
    requires
        a + x == a + y,
    ensures
        x == y,
{
    assert((a + x).skip(a.len() as int) =~= x);
    assert((a + y).skip(a.len() as int) =~= y);
}

proof fn numbers_are_told_apart(m: Option<u32>, x: Seq<char>, n: Option<u32>, y: Seq<char>)
    requires
        number_words(m) + x == number_words(n) + y,
    ensures
        m == n,
        x == y,
{
    reveal_strlit("None");
    reveal_strlit("Some(");
    reveal_strlit(")");
    let s = number_words(m) + x;
    let t = number_words(n) + y;
    match (m, n) {
        (Some(a), Some(b)) => {
            let (p, q) = (text::decimal(a as nat), text::decimal(b as nat));
            text::decimal_is_read_back(a as nat);
            text::decimal_is_read_back(b as nat);
            assert(s =~= "Some("@ + (p + seq![')'] + x));
            assert(t =~= "Some("@ + (q + seq![')'] + y));
            rests_agree("Some("@, p + seq![')'] + x, q + seq![')'] + y);
            parts_agree(p, x, q, y, ')');
        },
        (None, None) => {
            rests_agree("None"@, x, y);
        },
        (Some(_), None) => {
            assert(s[0] == 'S' && t[0] == 'N');
        },
        (None, Some(_)) => {
            assert(s[0] == 'N' && t[0] == 'S');
        },
    }
}

proof fn flags_are_told_apart(a: Option<bool>, x: Seq<char>, b: Option<bool>, y: Seq<char>)
    requires
        flag_words(a) + x == flag_words(b) + y,
    ensures
        a == b,
        x == y,
{
    reveal_strlit("None");
    reveal_strlit("Some(true)");
    reveal_strlit("Some(false)");
    let s = flag_words(a) + x;
    let t = flag_words(b) + y;
    if a != b {
        assert(s[0] == flag_words(a)[0] && t[0] == flag_words(b)[0]);
        if a is Some && b is Some {
            assert(s[5] == flag_words(a)[5] && t[5] == flag_words(b)[5]);
        }
    }
    rests_agree(flag_words(a), x, y);
}

/// A list in words is made of digits, commas and spaces.
proof fn list_is_plain(list: Seq<u32>, n: int)
    ensures
        n > 0 ==> list_words(list, n).len() > 0,
        forall|i: int|
            0 <= i < list_words(list, n).len() ==> #[trigger] list_words(list, n)[i] != ']',
    decreases n,
{
    reveal_strlit(", ");
    if n == 1 {
        text::decimal_is_read_back(list[0] as nat);
    } else if n > 1 {
        list_is_plain(list, n - 1);
        text::decimal_is_read_back(list[n - 1] as nat);
    }
}

/// Different lists differ in words.
proof fn lists_differ(a: Seq<u32>, m: int, b: Seq<u32>, n: int)
    requires
        0 <= m <= a.len(),
        0 <= n <= b.len(),
        list_words(a, m) == list_words(b, n),
    ensures
        m == n,
        a.take(m) == b.take(n),
    decreases m,
{
    reveal_strlit(", ");
    list_is_plain(a, m);
    list_is_plain(b, n);
    let s = list_words(a, m);
    let t = list_words(b, n);
    if m > 0 && n > 0 {
        let (p, q) = (text::decimal(a[m - 1] as nat), text::decimal(b[n - 1] as nat));
        text::decimal_is_read_back(a[m - 1] as nat);
        text::decimal_is_read_back(b[n - 1] as nat);
        if m > 1 {
            assert(s[s.len() - p.len() - 1] == ' ');
        }
        if n > 1 {
            assert(t[t.len() - q.len() - 1] == ' ');
        }
        if m > 1 && n > 1 {
            if p.len() < q.len() {
                assert(t[s.len() - p.len() - 1] == q[q.len() - p.len() - 1]);
            } else if q.len() < p.len() {
                assert(s[s.len() - q.len() - 1] == p[p.len() - q.len() - 1]);
            }
            assert(s.skip(s.len() - p.len()) =~= p);
            assert(t.skip(t.len() - q.len()) =~= q);
            assert(s.take(s.len() - p.len() - 2) =~= list_words(a, m - 1));
            assert(t.take(t.len() - q.len() - 2) =~= list_words(b, n - 1));
            lists_differ(a, m - 1, b, n - 1);
        }
        assert(a.take(m) =~= a.take(m - 1).push(a[m - 1]));
        assert(b.take(n) =~= b.take(n - 1).push(b[n - 1]));
    }
    assert(a.take(0) =~= b.take(0));
}

/// What stands before the settings in the text that a prompt cache is known by.
spec fn identity_head(c: LlamaCppLaunchConfig) -> Seq<char> {
    c.model_path@ + digest_words(c) + "ctx="@
}

/// What stands before the setting for mapped memory, behind the context.
spec fn identity_middle(c: LlamaCppLaunchConfig) -> Seq<char> {
    "kv="@ + c.kv_cache@ + "mmap="@
}

spec fn identity_build(server_id: u64) -> Seq<char> {
    "srv="@ + text::decimal(server_id as nat)
}

spec fn identity_vision(c: LlamaCppLaunchConfig, server_id: u64) -> Seq<char> {
    "vision="@ + (flag_words(c.vision) + identity_build(server_id))
}

spec fn identity_gpu(c: LlamaCppLaunchConfig, server_id: u64) -> Seq<char> {
    "gpu=["@ + (list_words(c.gpu@, c.gpu@.len() as int) + seq![']'] + identity_vision(c, server_id))
}

spec fn identity_experts(c: LlamaCppLaunchConfig, server_id: u64) -> Seq<char> {
    "ncmoe="@ + (number_words(c.n_cpu_moe) + identity_gpu(c, server_id))
}

spec fn identity_memory(c: LlamaCppLaunchConfig, server_id: u64) -> Seq<char> {
    identity_middle(c) + (flag_words(c.mmap) + identity_experts(c, server_id))
}

proof fn regrouped(a: Seq<char>, b: Seq<char>, c: Seq<char>)
    ensures
        a + b + c == a + (b + c),
{
    assert(a + b + c =~= a + (b + c));
}

/// The text that a prompt cache is known by, from the front.
proof fn identity_from_front(c: LlamaCppLaunchConfig, server_id: u64)
    ensures
        cache_identity(c, server_id) == identity_head(c) + (number_words(c.ctx_size)
            + identity_memory(c, server_id)),
{
    reveal_strlit("]vision=");
    reveal_strlit("vision=");
    let number = text::decimal(server_id as nat);
    let list = list_words(c.gpu@, c.gpu@.len() as int);
    let l0 = identity_head(c) + number_words(c.ctx_size);
    let l1 = l0 + "kv="@;
    let l2 = l1 + c.kv_cache@;
    let l3 = l2 + "mmap="@;
    let l4 = l3 + flag_words(c.mmap);
    let l5 = l4 + "ncmoe="@;
    let l6 = l5 + number_words(c.n_cpu_moe);
    let l7 = l6 + "gpu=["@;
    let l8 = l7 + list;
    let l9 = l8 + "]vision="@;
    let l10 = l9 + flag_words(c.vision);
    assert(cache_identity(c, server_id) == l10 + "srv="@ + number);
    regrouped(l10, "srv="@, number);
    let r5 = identity_build(server_id);
    regrouped(l9, flag_words(c.vision), r5);
    let r4 = flag_words(c.vision) + r5;
    regrouped(l8, "]vision="@, r4);
    assert("]vision="@ =~= seq![']'] + "vision="@);
    regrouped(seq![']'], "vision="@, r4);
    let r3 = seq![']'] + identity_vision(c, server_id);
    regrouped(l7, list, r3);
    regrouped(list, seq![']'], identity_vision(c, server_id));
    regrouped(l6, "gpu=["@, list + r3);
    let r2 = identity_gpu(c, server_id);
    regrouped(l5, number_words(c.n_cpu_moe), r2);
    regrouped(l4, "ncmoe="@, number_words(c.n_cpu_moe) + r2);
    let r1 = identity_experts(c, server_id);
    regrouped(l3, flag_words(c.mmap), r1);
    let r0 = flag_words(c.mmap) + r1;
    regrouped(l0, "kv="@, c.kv_cache@);
    regrouped(l0, "kv="@ + c.kv_cache@, "mmap="@);
    regrouped(l0, identity_middle(c), r0);
    regrouped(identity_head(c), number_words(c.ctx_size), identity_memory(c, server_id));
}

/// With one model, one digest of it and one kind of cache, the text that a prompt
/// cache is known by tells every other setting and the build of the server apart:
/// where two such texts are the same, so is all that they were made of.
pub proof fn settings_are_told_apart(
    c: LlamaCppLaunchConfig,
    c_server: u64,
    d: LlamaCppLaunchConfig,
    d_server: u64,
)
    requires
        c.model_path@ == d.model_path@,
        text::optional(c.model_sha256) == text::optional(d.model_sha256),
        c.kv_cache@ == d.kv_cache@,
        cache_identity(c, c_server) == cache_identity(d, d_server),
    ensures
        c.ctx_size == d.ctx_size,
        c.mmap == d.mmap,
        c.n_cpu_moe == d.n_cpu_moe,
        c.gpu@ == d.gpu@,
        c.vision == d.vision,
        c_server == d_server,
{
    identity_from_front(c, c_server);
    identity_from_front(d, d_server);
    let (c1, d1) = (identity_memory(c, c_server), identity_memory(d, d_server));
    rests_agree(identity_head(c), number_words(c.ctx_size) + c1, number_words(d.ctx_size) + d1);
    numbers_are_told_apart(c.ctx_size, c1, d.ctx_size, d1);
    let (c2, d2) = (identity_experts(c, c_server), identity_experts(d, d_server));
    rests_agree(identity_middle(c), flag_words(c.mmap) + c2, flag_words(d.mmap) + d2);
    flags_are_told_apart(c.mmap, c2, d.mmap, d2);
    let (c3, d3) = (identity_gpu(c, c_server), identity_gpu(d, d_server));
    rests_agree("ncmoe="@, number_words(c.n_cpu_moe) + c3, number_words(d.n_cpu_moe) + d3);
    numbers_are_told_apart(c.n_cpu_moe, c3, d.n_cpu_moe, d3);
    let (m, n) = (c.gpu@.len() as int, d.gpu@.len() as int);
    let (cl, dl) = (list_words(c.gpu@, m), list_words(d.gpu@, n));
    let (c4, d4) = (identity_vision(c, c_server), identity_vision(d, d_server));
    rests_agree("gpu=["@, cl + seq![']'] + c4, dl + seq![']'] + d4);
    list_is_plain(c.gpu@, m);
    list_is_plain(d.gpu@, n);
    parts_agree(cl, c4, dl, d4, ']');
    lists_differ(c.gpu@, m, d.gpu@, n);
    assert(c.gpu@.take(m) =~= c.gpu@);
    assert(d.gpu@.take(n) =~= d.gpu@);
    let (c5, d5) = (identity_build(c_server), identity_build(d_server));
    rests_agree("vision="@, flag_words(c.vision) + c5, flag_words(d.vision) + d5);
    flags_are_told_apart(c.vision, c5, d.vision, d5);
    rests_agree("srv="@, text::decimal(c_server as nat), text::decimal(d_server as nat));
    text::decimal_is_read_back(c_server as nat);
    text::decimal_is_read_back(d_server as nat);
}

proof fn insides_agree(a: Seq<char>, x: Seq<char>, y: Seq<char>, b: Seq<char>)
    requires
        a + x + b == a + y + b,
    ensures
        x == y,
{
    let (s, t) = (a + x + b, a + y + b);
    assert(s.len() == a.len() + x.len() + b.len());
    assert(t.len() == a.len() + y.len() + b.len());
    assert(s.subrange(a.len() as int, (a.len() + x.len()) as int) =~= x);
    assert(t.subrange(a.len() as int, (a.len() + x.len()) as int) =~= y);
}

/// Another model, another digest of it or another kind of cache, each of them alone,
/// gives another text for a prompt cache to be known by.
pub proof fn a_change_of_model_is_told_apart(
    c: LlamaCppLaunchConfig,
    d: LlamaCppLaunchConfig,
    server_id: u64,
)
    requires
        c.ctx_size == d.ctx_size,
        c.mmap == d.mmap,
        c.n_cpu_moe == d.n_cpu_moe,
        c.gpu@ == d.gpu@,
        c.vision == d.vision,
        ({
            let model = c.model_path@ == d.model_path@;
            let digest = digest_words(c) == digest_words(d);
            let kind = c.kv_cache@ == d.kv_cache@;
            (model && digest) || (model && kind) || (digest && kind)
        }),
        cache_identity(c, server_id) == cache_identity(d, server_id),
    ensures
        c.model_path@ == d.model_path@,
        digest_words(c) == digest_words(d),
        c.kv_cache@ == d.kv_cache@,
{
    identity_from_front(c, server_id);
    identity_from_front(d, server_id);
    let (p, q) = (c.model_path@, d.model_path@);
    let (s, t) = (digest_words(c), digest_words(d));
    let words = number_words(c.ctx_size);
    let behind = flag_words(c.mmap) + identity_experts(c, server_id);
    assert(identity_experts(c, server_id) == identity_experts(d, server_id));
    if c.kv_cache@ == d.kv_cache@ {
        let settings = words + identity_memory(c, server_id);
        assert(settings == number_words(d.ctx_size) + identity_memory(d, server_id));
        let rest = "ctx="@ + settings;
        regrouped(p + s, "ctx="@, settings);
        regrouped(q + t, "ctx="@, settings);
        if p == q {
            insides_agree(p, s, t, rest);
        } else {
            let none = Seq::<char>::empty();
            regrouped(p, s, rest);
            regrouped(q, s, rest);
            assert(none + p =~= p);
            assert(none + q =~= q);
            insides_agree(none, p, q, s + rest);
        }
    } else {
        let front = identity_head(c) + words;
        kind_stands_inside(front, c.kv_cache@, behind);
        kind_stands_inside(front, d.kv_cache@, behind);
        regrouped(identity_head(c), words, identity_memory(c, server_id));
        regrouped(identity_head(c), words, identity_memory(d, server_id));
        insides_agree(front + "kv="@, c.kv_cache@, d.kv_cache@, "mmap="@ + behind);
    }
}

proof fn kind_stands_inside(front: Seq<char>, kind: Seq<char>, behind: Seq<char>)
    ensures
        front + ("kv="@ + kind + "mmap="@ + behind) == front + "kv="@ + kind + ("mmap="@ + behind),
{
    regrouped("kv="@ + kind, "mmap="@, behind);
    regrouped(front, "kv="@ + kind, "mmap="@ + behind);
    regrouped(front, "kv="@, kind);
}

/// Where the prompt cache lies, and its key. `base` is the directory of caches that
/// is set, `model_dir` the directory of the model; without both there is none.
pub open spec fn cache_place(base: Option<Seq<char>>, model_dir: Option<Seq<char>>, key: Seq<char>) -> Option<
    Seq<char>,
> {
    match settings::filled(base) {
        Some(b) => Some(text::path_under(b, key.take(16))),
        None => match model_dir {
            Some(d) => Some(text::path_under(text::path_under(d, "kvcache"@), key.take(16))),
            None => None,
        },
    }
}

impl LlamaCppLaunchConfig {
    /// The key of the prompt cache for these settings.
    pub fn prompt_cache_key(&self, server_id: u64) -> (r: String)
        ensures
            r@ == cache_key(*self, server_id),
            digest::is_hex_digest(r@),
    {
        let mut id = self.model_path.clone();
        match &self.model_sha256 {
            Some(s) => {
                id.append(s.as_str());
            },
            None => {
                assert(id@ + Seq::<char>::empty() =~= id@);
            },
        }
        id.append("ctx=");
        id.append(words_of_number(self.ctx_size).as_str());
        id.append("kv=");
        id.append(self.kv_cache.as_str());
        id.append("mmap=");
        id.append(words_of_flag(self.mmap).as_str());
        id.append("ncmoe=");
        id.append(words_of_number(self.n_cpu_moe).as_str());
        id.append("gpu=[");
        id.append(words_of_list(&self.gpu).as_str());
        id.append("]vision=");
        id.append(words_of_flag(self.vision).as_str());
        id.append("srv=");
        id.append(text::decimal_string(server_id as u128).as_str());
        digest::sha256_of_text(id.as_str())
    }

    /// Where the prompt cache lies, and its key.
    pub fn prompt_cache(
        &self,
        base: Option<String>,
        model_dir: Option<String>,
        server_id: u64,
    ) -> (r: Option<(String, String)>)
        ensures
            match cache_place(
                text::optional(base),
                text::optional(model_dir),
                cache_key(*self, server_id),
            ) {
                Some(dir) => r matches Some((d, k)) && d@ == dir && k@ == cache_key(
                    *self,
                    server_id,
                ),
                None => r is None,
            },
    {
        let key = self.prompt_cache_key(server_id);
        let cs = text::chars_of(key.as_str());
        let short = text::substring_of(cs.as_slice(), 0, 16);
        assert(short@ =~= key@.take(16));
        match settings::nonblank(base) {
            Some(b) => Some((text::join_path(b.as_str(), short.as_str()), key)),
            None => match model_dir {
                Some(d) => {
                    let kv = text::join_path(d.as_str(), "kvcache");
                    Some((text::join_path(kv.as_str(), short.as_str()), key))
                },
                None => None,
            },
        }
    }
}

// ---------------------------------------------------------------------------
// Devices.

/// Whether a word names a device: letters and digits, a letter first and a digit
/// last.
pub open spec fn is_device_name(head: Seq<char>) -> bool {
    &&& head.len() > 0
    &&& text::is_letter(head[0])
    &&& text::is_digit(head.last())
    &&& forall|i: int| 0 <= i < head.len() ==> text::is_alphanumeric(#[trigger] head[i])
}

/// The device that a line names.
pub open spec fn device_in(line: Seq<char>) -> Option<Seq<char>> {
    match text::halves(text::trim_start(line), ':') {
        Some((head, _)) if is_device_name(head) => Some(head),
        _ => None,
    }
}

/// The devices that the first `n` lines name.
pub open spec fn devices_in(lines: Seq<Seq<char>>, n: int) -> Seq<Seq<char>>
    decreases n,
{
    if n <= 0 {
        Seq::empty()
    } else {
        match device_in(lines[n - 1]) {
            Some(name) => devices_in(lines, n - 1).push(name),
            None => devices_in(lines, n - 1),
        }
    }
}

pub(crate) fn device_named(head: &[char]) -> (r: bool)
    ensures
        r == is_device_name(head@),
{
    let n: usize = head.len();
    if n == 0 {
        return false;
    }
    let first = head[0];
    let last = head[n - 1];
    if !(('a' <= first && first <= 'z') || ('A' <= first && first <= 'Z')) {
        return false;
    }
    if !('0' <= last && last <= '9') {
        return false;
    }
    let mut i: usize = 0;
    while i < n
        invariant
            i <= n == head@.len(),
            forall|k: int| 0 <= k < i ==> text::is_alphanumeric(#[trigger] head@[k]),
        decreases n - i,
    {
        if !text::alphanumeric(head[i]) {
            return false;
        }
        i += 1;
    }
    true
}

/// The devices that the server lists, in its order.
pub fn device_names(listing: &str) -> (r: Vec<String>)
    ensures
        text::strings(r@) == devices_in(text::lines(listing@), text::lines(listing@).len() as int),
{
    let cs = text::chars_of(listing);
    let lines = text::lines_of(cs.as_slice());
    let ghost all = text::texts(lines@);
    let mut out: Vec<String> = Vec::new();
    let mut i: usize = 0;
    assert(text::strings(out@) =~= Seq::empty());
    while i < lines.len()
        invariant
            i <= lines@.len(),
            all == text::texts(lines@),
            text::strings(out@) == devices_in(all, i as int),
        decreases lines@.len() - i,
    {
        let trimmed = text::trimmed_start(lines[i].as_slice());
        assert(trimmed@ == text::trim_start(all[i as int]));
        match text::split_once(trimmed.as_slice(), ':') {
            Some((head, _)) => {
                if device_named(head.as_slice()) {
                    let ghost before = out@;
                    let name = text::string_of(head.as_slice());
                    out.push(name);
                    assert(text::strings(out@) =~= text::strings(before).push(name@));
                }
            },
            None => {},
        }
        i += 1;
    }
    out
}

// ---------------------------------------------------------------------------
// The command line.

/// What the launch finds on the machine.
#[derive(Debug)]
pub struct LaunchFacts {
    pub model_exists: bool,
    /// The directory of the prompt cache with its separator, and its key; none
    /// where there is none or it cannot be made.
    pub cache: Option<(String, String)>,
    pub mmproj_exists: bool,
    /// The chat template that is set or found, and whether it is a file.
    pub template: Option<(String, bool)>,
    /// Whether the raw transport is used.
    pub raw: bool,
    /// Whether devices are masked in the environment.
    pub inherited_mask: bool,
    /// The devices that the server lists.
    pub devices: Vec<String>,
}

pub open spec fn model_args(c: LlamaCppLaunchConfig) -> Seq<Seq<char>> {
    seq![
        "--model"@,
        c.model_path@,
        "--port"@,
        text::decimal(c.port as nat),
        "--host"@,
        "127.0.0.1"@,
    ]
}

pub open spec fn cache_args(f: LaunchFacts) -> Seq<Seq<char>> {
    match f.cache {
        Some((dir, _)) => seq!["--slot-save-path"@, dir@],
        None => Seq::empty(),
    }
}

pub open spec fn slot_args(c: LlamaCppLaunchConfig) -> Seq<Seq<char>> {
    (match c.ctx_size {
        Some(n) => seq!["--ctx-size"@, text::decimal(n as nat)],
        None => Seq::empty(),
    }) + seq![
        "--slot-prompt-similarity"@,
        "0.5"@,
        "--parallel"@,
        text::decimal(
            match c.parallel {
                Some(n) => n as nat,
                None => 1,
            },
        ),
        "--ctx-checkpoints"@,
        "1"@,
    ]
}

/// A quantized cache needs flash attention; `f16` and `off` leave the server's own
/// choice.
pub open spec fn kv_args(c: LlamaCppLaunchConfig) -> Seq<Seq<char>> {
    let kv = text::trim(c.kv_cache@);
    if kv.len() == 0 || text::lower(kv) == text::lower("f16"@) || text::lower(kv) == text::lower(
        "off"@,
    ) {
        Seq::empty()
    } else {
        seq!["--cache-type-k"@, kv, "--cache-type-v"@, kv, "-fa"@, "on"@]
    }
}

pub open spec fn memory_args(c: LlamaCppLaunchConfig) -> Seq<Seq<char>> {
    (if c.mmap == Some(false) {
        seq!["--no-mmap"@]
    } else {
        Seq::empty()
    }) + match c.n_cpu_moe {
        Some(n) => seq!["--n-cpu-moe"@, text::decimal(n as nat)],
        None => Seq::empty(),
    }
}

pub open spec fn vision_args(c: LlamaCppLaunchConfig, f: LaunchFacts) -> Seq<Seq<char>> {
    match c.mmproj_path {
        Some(p) if c.vision != Some(false) && f.mmproj_exists => seq!["--mmproj"@, p@],
        _ => Seq::empty(),
    }
}

/// The template is needed unless the raw transport is used.
pub open spec fn template_args(f: LaunchFacts) -> Result<Seq<Seq<char>>, Seq<char>> {
    match f.template {
        Some((path, true)) => Ok(seq!["--jinja"@, "--chat-template-file"@, path@]),
        Some((path, false)) => if f.raw {
            Ok(Seq::empty())
        } else {
            Err(
                "Required Millie chat template is missing: "@ + path@
                    + ". Restore millie-native.jinja or correct MILLIE_LLAMACPP_CHAT_TEMPLATE."@,
            )
        },
        None => if f.raw {
            Ok(Seq::empty())
        } else {
            Err(
                "Required millie-native.jinja was not found. Restore it beside Millie or set MILLIE_LLAMACPP_CHAT_TEMPLATE to its path."@,
            )
        },
    }
}

/// The devices at the first `n` places that are wanted; the first place that is not
/// there is an error where the places were chosen, and passed over else.
pub open spec fn selected(wanted: Seq<u32>, devices: Seq<Seq<char>>, chosen: bool, n: int) -> Result<
    Seq<Seq<char>>,
    u32,
>
    decreases n,
{
    if n <= 0 {
        Ok(Seq::empty())
    } else {
        match selected(wanted, devices, chosen, n - 1) {
            Err(i) => Err(i),
            Ok(before) => if (wanted[n - 1] as int) < devices.len() {
                Ok(before.push(devices[wanted[n - 1] as int]))
            } else if chosen {
                Err(wanted[n - 1])
            } else {
                Ok(before)
            },
        }
    }
}

pub open spec fn wanted_places(c: LlamaCppLaunchConfig) -> Seq<u32> {
    if c.gpu_explicit {
        c.gpu@
    } else {
        seq![0u32]
    }
}

pub open spec fn out_of_range(i: u32, devices: Seq<Seq<char>>) -> Seq<char> {
    "GPU index "@ + text::decimal(i as nat) + " is out of range: llama-server lists "@
        + text::decimal(devices.len()) + " device(s): "@ + text::join(devices, ", "@)
        + ". Pick an index from `llama-server --list-devices`."@
}

/// CPU only keeps the model, its cache and the vision tower off every device; a
/// mask of the environment is respected unless devices were chosen; else devices
/// are picked by their names.
pub open spec fn device_args(c: LlamaCppLaunchConfig, f: LaunchFacts) -> Result<
    Seq<Seq<char>>,
    Seq<char>,
> {
    let devices = text::strings(f.devices@);
    let all = seq!["--n-gpu-layers"@, "999"@];
    if c.gpu_explicit && c.gpu@.len() == 0 {
        Ok(seq!["--device"@, "none"@, "--n-gpu-layers"@, "0"@, "--no-mmproj-offload"@])
    } else if f.inherited_mask && !c.gpu_explicit {
        Ok(all)
    } else if devices.len() == 0 {
        if c.gpu_explicit {
            Err(
                "could not list GPU devices from llama-server to honor the requested GPU index; run `llama-server --list-devices` to check the GPU backend"@,
            )
        } else {
            Ok(all)
        }
    } else {
        let wanted = wanted_places(c);
        match selected(wanted, devices, c.gpu_explicit, wanted.len() as int) {
            Err(i) => Err(out_of_range(i, devices)),
            Ok(names) => if names.len() == 0 {
                Ok(all)
            } else {
                Ok(all + seq!["--device"@, text::join(names, ","@)])
            },
        }
    }
}

/// The command line of the server, or why it cannot be launched.
pub open spec fn server_args(c: LlamaCppLaunchConfig, f: LaunchFacts) -> Result<
    Seq<Seq<char>>,
    Seq<char>,
> {
    if !f.model_exists {
        Err("llama.cpp model path does not exist: "@ + c.model_path@)
    } else {
        match template_args(f) {
            Err(m) => Err(m),
            Ok(template) => match device_args(c, f) {
                Err(m) => Err(m),
                Ok(device) => Ok(
                    model_args(c) + cache_args(f) + slot_args(c) + kv_args(c) + memory_args(c)
                        + vision_args(c, f) + template + device,
                ),
            },
        }
    }
}

/// The command of the server.
#[derive(Debug)]
pub struct ServerCommand {
    pub args: Vec<String>,
    /// The key of the prompt cache, for the environment of the server.
    pub cache_key: Option<String>,
}

fn push_all(out: &mut Vec<String>, more: Vec<String>)
    ensures
        text::strings(final(out)@) == text::strings(old(out)@) + text::strings(more@),
{
    let ghost before = out@;
    let ghost added = more@;
    let mut more = more;
    out.append(&mut more);
    assert(text::strings(out@) =~= text::strings(before) + text::strings(added));
}

fn number_text(n: u64) -> (r: String)
    ensures
        r@ == text::decimal(n as nat),
{
    text::decimal_string(n as u128)
}

fn list_of_two(a: &str, b: &str) -> (r: Vec<String>)
    ensures
        text::strings(r@) == seq![a@, b@],
{
    let mut out: Vec<String> = Vec::new();
    out.push(a.to_string());
    out.push(b.to_string());
    assert(text::strings(out@) =~= seq![a@, b@]);
    out
}

fn no_args() -> (out: Vec<String>)
    ensures
        text::strings(out@) == Seq::<Seq<char>>::empty(),
{
    let out: Vec<String> = Vec::new();
    assert(text::strings(out@) =~= Seq::empty());
    out
}

fn args_of_model(c: &LlamaCppLaunchConfig) -> (out: Vec<String>)
    ensures
        text::strings(out@) == model_args(*c),
{
    let mut out = list_of_two("--model", c.model_path.as_str());
    push_all(&mut out, list_of_two("--port", number_text(c.port as u64).as_str()));
    push_all(&mut out, list_of_two("--host", "127.0.0.1"));
    assert(text::strings(out@) =~= model_args(*c));
    out
}

fn args_of_cache(f: &LaunchFacts) -> (out: Vec<String>)
    ensures
        text::strings(out@) == cache_args(*f),
{
    match &f.cache {
        Some((dir, _)) => list_of_two("--slot-save-path", dir.as_str()),
        None => no_args(),
    }
}

fn args_of_slots(c: &LlamaCppLaunchConfig) -> (out: Vec<String>)
    ensures
        text::strings(out@) == slot_args(*c),
{
    let mut out = match c.ctx_size {
        Some(n) => list_of_two("--ctx-size", number_text(n as u64).as_str()),
        None => no_args(),
    };
    let ghost head = text::strings(out@);
    push_all(&mut out, list_of_two("--slot-prompt-similarity", "0.5"));
    let parallel: u32 = match c.parallel {
        Some(n) => n,
        None => 1,
    };
    push_all(&mut out, list_of_two("--parallel", number_text(parallel as u64).as_str()));
    push_all(&mut out, list_of_two("--ctx-checkpoints", "1"));
    assert(text::strings(out@) =~= head + seq![
        "--slot-prompt-similarity"@,
        "0.5"@,
        "--parallel"@,
        text::decimal(parallel as nat),
        "--ctx-checkpoints"@,
        "1"@,
    ]);
    out
}

fn args_of_kv(c: &LlamaCppLaunchConfig) -> (out: Vec<String>)
    ensures
        text::strings(out@) == kv_args(*c),
{
    let kv = text::str_trim(c.kv_cache.as_str());
    let plain: bool = kv.as_str().is_empty() || text::same_ignoring_case(kv.as_str(), "f16")
        || text::same_ignoring_case(kv.as_str(), "off");
    if plain {
        return no_args();
    }
    let mut out = list_of_two("--cache-type-k", kv.as_str());
    push_all(&mut out, list_of_two("--cache-type-v", kv.as_str()));
    push_all(&mut out, list_of_two("-fa", "on"));
    assert(text::strings(out@) =~= kv_args(*c));
    out
}

fn args_of_memory(c: &LlamaCppLaunchConfig) -> (out: Vec<String>)
    ensures
        text::strings(out@) == memory_args(*c),
{
    let locked: bool = match c.mmap {
        Some(b) => !b,
        None => false,
    };
    let mut out = no_args();
    if locked {
        out.push("--no-mmap".to_string());
        assert(text::strings(out@) =~= seq!["--no-mmap"@]);
    }
    let more = match c.n_cpu_moe {
        Some(n) => list_of_two("--n-cpu-moe", number_text(n as u64).as_str()),
        None => no_args(),
    };
    push_all(&mut out, more);
    out
}

fn args_of_vision(c: &LlamaCppLaunchConfig, f: &LaunchFacts) -> (out: Vec<String>)
    ensures
        text::strings(out@) == vision_args(*c, *f),
{
    let off: bool = match c.vision {
        Some(v) => !v,
        None => false,
    };
    match &c.mmproj_path {
        Some(p) => {
            if !off && f.mmproj_exists {
                list_of_two("--mmproj", p.as_str())
            } else {
                no_args()
            }
        },
        None => no_args(),
    }
}

fn args_of_template(f: &LaunchFacts) -> (r: Result<Vec<String>, String>)
    ensures
        match template_args(*f) {
            Ok(a) => r matches Ok(v) && text::strings(v@) == a,
            Err(e) => r matches Err(m) && m@ == e,
        },
{
    match &f.template {
        Some((path, is_file)) => {
            if *is_file {
                let mut out: Vec<String> = Vec::new();
                out.push("--jinja".to_string());
                out.push("--chat-template-file".to_string());
                out.push(path.clone());
                assert(text::strings(out@) =~= seq![
                    "--jinja"@,
                    "--chat-template-file"@,
                    path@,
                ]);
                Ok(out)
            } else if f.raw {
                let none: Vec<String> = Vec::new();
                assert(text::strings(none@) =~= Seq::empty());
                Ok(none)
            } else {
                let mut m = "Required Millie chat template is missing: ".to_string();
                m.append(path.as_str());
                m.append(
                    ". Restore millie-native.jinja or correct MILLIE_LLAMACPP_CHAT_TEMPLATE.",
                );
                Err(m)
            }
        },
        None => {
            if f.raw {
                let none: Vec<String> = Vec::new();
                assert(text::strings(none@) =~= Seq::empty());
                Ok(none)
            } else {
                Err(
                    "Required millie-native.jinja was not found. Restore it beside Millie or set MILLIE_LLAMACPP_CHAT_TEMPLATE to its path.".to_string(),
                )
            }
        },
    }
}

fn select_devices(wanted: &Vec<u32>, devices: &Vec<String>, chosen: bool) -> (r: Result<
    Vec<String>,
    u32,
>)
    ensures
        match selected(wanted@, text::strings(devices@), chosen, wanted@.len() as int) {
            Ok(names) => r matches Ok(v) && text::strings(v@) == names,
            Err(i) => r matches Err(j) && j == i,
        },
{
    let ghost all = text::strings(devices@);
    let mut out: Vec<String> = Vec::new();
    let mut i: usize = 0;
    assert(text::strings(out@) =~= Seq::empty());
    while i < wanted.len()
        invariant
            i <= wanted@.len(),
            all == text::strings(devices@),
            selected(wanted@, all, chosen, i as int) == Ok::<Seq<Seq<char>>, u32>(
                text::strings(out@),
            ),
        decreases wanted@.len() - i,
    {
        let place: usize = wanted[i] as usize;
        if place < devices.len() {
            let ghost before = out@;
            let name = devices[place].clone();
            assert(all[place as int] == name@);
            out.push(name);
            assert(text::strings(out@) =~= text::strings(before).push(name@));
        } else if chosen {
            proof {
                selected_stops(wanted@, all, chosen, i + 1, wanted@.len() as int);
            }
            return Err(wanted[i]);
        }
        i += 1;
    }
    Ok(out)
}

proof fn selected_stops(wanted: Seq<u32>, devices: Seq<Seq<char>>, chosen: bool, m: int, n: int)
    requires
        0 <= m <= n,
        selected(wanted, devices, chosen, m) is Err,
    ensures
        selected(wanted, devices, chosen, n) == selected(wanted, devices, chosen, m),
    decreases n,
{
    if m < n {
        selected_stops(wanted, devices, chosen, m, n - 1);
    }
}

fn args_of_devices(c: &LlamaCppLaunchConfig, f: &LaunchFacts) -> (r: Result<Vec<String>, String>)
    ensures
        match device_args(*c, *f) {
            Ok(a) => r matches Ok(v) && text::strings(v@) == a,
            Err(e) => r matches Err(m) && m@ == e,
        },
{
    if c.gpu_explicit && c.gpu.len() == 0 {
        let mut out = list_of_two("--device", "none");
        push_all(&mut out, list_of_two("--n-gpu-layers", "0"));
        let ghost before = text::strings(out@);
        out.push("--no-mmproj-offload".to_string());
        assert(text::strings(out@) =~= before.push("--no-mmproj-offload"@));
        assert(text::strings(out@) =~= seq![
            "--device"@,
            "none"@,
            "--n-gpu-layers"@,
            "0"@,
            "--no-mmproj-offload"@,
        ]);
        return Ok(out);
    }
    let mut out = list_of_two("--n-gpu-layers", "999");
    if f.inherited_mask && !c.gpu_explicit {
        return Ok(out);
    }
    if f.devices.len() == 0 {
        return if c.gpu_explicit {
            Err(
                "could not list GPU devices from llama-server to honor the requested GPU index; run `llama-server --list-devices` to check the GPU backend".to_string(),
            )
        } else {
            Ok(out)
        };
    }
    let mut first: Vec<u32> = Vec::new();
    first.push(0);
    assert(first@ =~= seq![0u32]);
    let found = if c.gpu_explicit {
        select_devices(&c.gpu, &f.devices, true)
    } else {
        select_devices(&first, &f.devices, false)
    };
    match found {
        Err(i) => {
            let mut m = "GPU index ".to_string();
            m.append(number_text(i as u64).as_str());
            m.append(" is out of range: llama-server lists ");
            m.append(number_text(f.devices.len() as u64).as_str());
            m.append(" device(s): ");
            m.append(text::join_strings(&f.devices, ", ").as_str());
            m.append(". Pick an index from `llama-server --list-devices`.");
            Err(m)
        },
        Ok(names) => {
            if names.len() > 0 {
                let joined = text::join_strings(&names, ",");
                push_all(&mut out, list_of_two("--device", joined.as_str()));
            }
            Ok(out)
        },
    }
}

/// The command of the server, or why it cannot be launched.
pub fn server_command(c: &LlamaCppLaunchConfig, f: &LaunchFacts) -> (r: Result<
    ServerCommand,
    String,
>)
    ensures
        match server_args(*c, *f) {
            Ok(a) => r matches Ok(cmd) && text::strings(cmd.args@) == a && text::optional(
                cmd.cache_key,
            ) == match f.cache {
                Some((_, key)) => Some(key@),
                None => None,
            },
            Err(e) => r matches Err(m) && m@ == e,
        },
{
    if !f.model_exists {
        let mut m = "llama.cpp model path does not exist: ".to_string();
        m.append(c.model_path.as_str());
        return Err(m);
    }
    let template = match args_of_template(f) {
        Ok(a) => a,
        Err(m) => {
            return Err(m);
        },
    };
    let device = match args_of_devices(c, f) {
        Ok(a) => a,
        Err(m) => {
            return Err(m);
        },
    };
    let mut args = args_of_model(c);
    push_all(&mut args, args_of_cache(f));
    push_all(&mut args, args_of_slots(c));
    push_all(&mut args, args_of_kv(c));
    push_all(&mut args, args_of_memory(c));
    push_all(&mut args, args_of_vision(c, f));
    push_all(&mut args, template);
    push_all(&mut args, device);
    let cache_key = match &f.cache {
        Some((_, key)) => Some(key.clone()),
        None => None,
    };
    Ok(ServerCommand { args, cache_key })
}

/// Vision that is off never loads the vision tower, whatever lies on the machine;
/// and CPU only keeps everything off the devices.
pub proof fn choices_are_kept(c: LlamaCppLaunchConfig, f: LaunchFacts)
    ensures
        c.vision == Some(false) ==> vision_args(c, f).len() == 0,
        c.gpu_explicit && c.gpu@.len() == 0 ==> device_args(c, f) == Ok::<
            Seq<Seq<char>>,
            Seq<char>,
        >(seq!["--device"@, "none"@, "--n-gpu-layers"@, "0"@, "--no-mmproj-offload"@]),
        !c.gpu_explicit ==> device_args(c, f) is Ok,
{
    if !c.gpu_explicit {
        unchosen_devices_never_fail(
            wanted_places(c),
            text::strings(f.devices@),
            wanted_places(c).len() as int,
        );
    }
}

proof fn unchosen_devices_never_fail(wanted: Seq<u32>, devices: Seq<Seq<char>>, n: int)
    ensures
        selected(wanted, devices, false, n) is Ok,
    decreases n,
{
    if n > 0 {
        unchosen_devices_never_fail(wanted, devices, n - 1);
    }
}

// ---------------------------------------------------------------------------
// The log of the server.

/// The last `n` lines of a text.
pub open spec fn last_lines(lines: Seq<Seq<char>>, n: nat) -> Seq<Seq<char>> {
    if lines.len() > n {
        lines.skip(lines.len() - n)
    } else {
        lines
    }
}

/// The last `n` lines of a log.
pub fn log_tail(log: &str, n: usize) -> (r: String)
    ensures
        r@ == text::join(last_lines(text::lines(log@), n as nat), "\n"@),
{
    let cs = text::chars_of(log);
    let lines = text::lines_of(cs.as_slice());
    let total: usize = lines.len();
    let start: usize = if total > n {
        total - n
    } else {
        0
    };
    let ghost all = text::texts(lines@);
    let ghost goal = last_lines(all, n as nat);
    let mut out: Vec<String> = Vec::new();
    let mut i: usize = start;
    assert(text::strings(out@) =~= goal.take(0));
    while i < total
        invariant
            start <= i <= total == lines@.len(),
            all == text::texts(lines@),
            goal == all.skip(start as int),
            text::strings(out@) == goal.take(i - start),
        decreases total - i,
    {
        let ghost before = out@;
        let line = text::string_of(lines[i].as_slice());
        out.push(line);
        assert(text::strings(out@) =~= text::strings(before).push(line@));
        assert(goal.take(i + 1 - start) =~= goal.take(i - start).push(goal[i - start]));
        i += 1;
    }
    assert(goal.take(total - start) =~= goal);
    text::join_strings(&out, "\n")
}

/// Where the server writes its log: where it is told to, else below the home, else
/// among the temporary files.
pub open spec fn log_place(
    set: Option<Seq<char>>,
    millie_home: Option<Seq<char>>,
    home: Option<Seq<char>>,
    profile: Option<Seq<char>>,
    temporary: Seq<char>,
) -> Seq<char> {
    match settings::filled(set) {
        Some(p) => p,
        None => text::path_under(
            match settings::filled(millie_home) {
                Some(h) => h,
                None => match home {
                    Some(h) => text::path_under(h, ".millie"@),
                    None => match profile {
                        Some(h) => text::path_under(h, ".millie"@),
                        None => temporary,
                    },
                },
            },
            "llama-server.log"@,
        ),
    }
}

/// Where the server writes its log.
pub fn server_log_path(
    set: Option<&str>,
    millie_home: Option<&str>,
    home: Option<&str>,
    profile: Option<&str>,
    temporary: &str,
) -> (r: String)
    ensures
        r@ == log_place(
            settings::value_text(set),
            settings::value_text(millie_home),
            settings::value_text(home),
            settings::value_text(profile),
            temporary@,
        ),
{
    match set {
        Some(p) => {
            if !text::str_blank(p) {
                return p.to_string();
            }
        },
        None => {},
    }
    let own: Option<&str> = match millie_home {
        Some(h) => if text::str_blank(h) {
            None
        } else {
            Some(h)
        },
        None => None,
    };
    let dir = match own {
        Some(h) => h.to_string(),
        None => match home {
            Some(h) => text::join_path(h, ".millie"),
            None => match profile {
                Some(h) => text::join_path(h, ".millie"),
                None => temporary.to_string(),
            },
        },
    };
    text::join_path(dir.as_str(), "llama-server.log")
}

// ---------------------------------------------------------------------------
// The chat template.

/// The template in a directory, where the directory is known.
pub open spec fn template_in(dir: Option<Seq<char>>) -> Seq<Seq<char>> {
    match dir {
        Some(d) => seq![text::path_under(d, "millie-native.jinja"@)],
        None => Seq::empty(),
    }
}

/// Where the template of an installation may lie: beside the program, in its home,
/// beside the server.
pub fn template_places(
    exe_dir: &Option<String>,
    millie_home: &Option<String>,
    server_dir: &Option<String>,
) -> (r: Vec<String>)
    ensures
        text::strings(r@) == template_in(text::optional(*exe_dir)) + template_in(
            text::optional(*millie_home),
        ) + template_in(text::optional(*server_dir)),
{
    let mut out: Vec<String> = Vec::new();
    assert(text::strings(out@) =~= Seq::empty());
    push_template(&mut out, exe_dir);
    push_template(&mut out, millie_home);
    push_template(&mut out, server_dir);
    assert(text::strings(out@) =~= template_in(text::optional(*exe_dir)) + template_in(
        text::optional(*millie_home),
    ) + template_in(text::optional(*server_dir)));
    out
}

fn push_template(out: &mut Vec<String>, dir: &Option<String>)
    ensures
        text::strings(final(out)@) == text::strings(old(out)@) + template_in(text::optional(*dir)),
{
    let ghost before = text::strings(out@);
    match dir {
        Some(d) => {
            let path = text::join_path(d.as_str(), "millie-native.jinja");
            out.push(path);
            assert(text::strings(out@) =~= before + template_in(text::optional(*dir)));
        },
        None => {
            assert(before + Seq::<Seq<char>>::empty() =~= before);
        },
    }
}

/// The first place that is there, from `i` on.
pub open spec fn first_present(places: Seq<Seq<char>>, present: Seq<bool>, i: int) -> Option<Seq<char>>
    decreases places.len() - i,
{
    if i < 0 || i >= places.len() {
        None
    } else if present[i] {
        Some(places[i])
    } else {
        first_present(places, present, i + 1)
    }
}

/// The template to use: one that is named, whether or not it is there, else the first
/// that is there.
pub fn chosen_template(explicit: Option<String>, places: &Vec<String>, present: &Vec<bool>) -> (r:
    Option<String>)
    requires
        present@.len() == places@.len(),
    ensures
        text::optional(r) == match settings::filled(text::optional(explicit)) {
            Some(p) => Some(p),
            None => first_present(text::strings(places@), present@, 0),
        },
{
    match settings::nonblank(explicit) {
        Some(p) => {
            return Some(p);
        },
        None => {},
    }
    let mut i: usize = 0;
    while i < places.len()
        invariant
            i <= places@.len() == present@.len(),
            settings::filled(text::optional(explicit)) is None,
            first_present(text::strings(places@), present@, 0) == first_present(
                text::strings(places@),
                present@,
                i as int,
            ),
        decreases places@.len() - i,
    {
        if present[i] {
            return Some(places[i].clone());
        }
        i += 1;
    }
    None
}

// ---------------------------------------------------------------------------
// Laws.

/// Whether a word is no option: it does not begin with a dash.
pub open spec fn is_plain(word: Seq<char>) -> bool {
    word.len() == 0 || word[0] != '-'
}

/// Whether no setting and nothing on the machine is named like an option.
pub open spec fn names_are_plain(c: LlamaCppLaunchConfig, f: LaunchFacts) -> bool {
    &&& is_plain(c.model_path@)
    &&& is_plain(text::trim(c.kv_cache@))
    &&& c.mmproj_path matches Some(p) ==> is_plain(p@)
    &&& f.cache matches Some((dir, _)) ==> is_plain(dir@)
    &&& f.template matches Some((path, _)) ==> is_plain(path@)
    &&& forall|i: int| 0 <= i < f.devices@.len() ==> is_plain(#[trigger] f.devices@[i]@)
}

/// Whether an option stands among arguments with this value right behind it.
pub open spec fn gives(args: Seq<Seq<char>>, option: Seq<char>, value: Seq<char>) -> bool {
    exists|i: int| 0 <= i < args.len() - 1 && #[trigger] args[i] == option && args[i + 1] == value
}

proof fn decimal_is_plain(n: nat)
    ensures
        is_plain(text::decimal(n)),
{
    text::decimal_is_read_back(n);
    assert(text::is_digit(text::decimal(n)[0]));
}

/// How the options are told apart: by their length, their third and their last character.
proof fn options_are_told_apart()
    ensures
        "--model"@.len() == 7 && "--model"@[0] == '-' && "--model"@[2] == 'm',
        "--port"@.len() == 6 && "--port"@[0] == '-' && "--port"@[2] == 'p',
        "--host"@.len() == 6 && "--host"@[0] == '-' && "--host"@[2] == 'h',
        "--slot-save-path"@.len() == 16 && "--slot-save-path"@[0] == '-',
        "--ctx-size"@.len() == 10 && "--ctx-size"@[0] == '-' && "--ctx-size"@[2] == 'c',
        "--slot-prompt-similarity"@.len() == 24 && "--slot-prompt-similarity"@[0] == '-',
        "--parallel"@.len() == 10 && "--parallel"@[0] == '-' && "--parallel"@[2] == 'p',
        "--ctx-checkpoints"@.len() == 17 && "--ctx-checkpoints"@[0] == '-',
        "--cache-type-k"@.len() == 14 && "--cache-type-k"@[0] == '-' && "--cache-type-k"@[2] == 'c'
            && "--cache-type-k"@[13] == 'k',
        "--cache-type-v"@.len() == 14 && "--cache-type-v"@[0] == '-' && "--cache-type-v"@[2] == 'c'
            && "--cache-type-v"@[13] == 'v',
        "-fa"@.len() == 3 && "-fa"@[0] == '-',
        "--no-mmap"@.len() == 9 && "--no-mmap"@[0] == '-',
        "--n-cpu-moe"@.len() == 11 && "--n-cpu-moe"@[0] == '-',
        "--mmproj"@.len() == 8 && "--mmproj"@[0] == '-' && "--mmproj"@[2] == 'm',
        "--jinja"@.len() == 7 && "--jinja"@[0] == '-' && "--jinja"@[2] == 'j',
        "--chat-template-file"@.len() == 20 && "--chat-template-file"@[0] == '-',
        "--n-gpu-layers"@.len() == 14 && "--n-gpu-layers"@[0] == '-' && "--n-gpu-layers"@[2]
            == 'n',
        "--device"@.len() == 8 && "--device"@[0] == '-' && "--device"@[2] == 'd',
        "--no-mmproj-offload"@.len() == 19 && "--no-mmproj-offload"@[0] == '-',
        is_plain("127.0.0.1"@) && is_plain("0.5"@) && is_plain("1"@) && is_plain("on"@) && is_plain(
            "999"@,
        ) && is_plain("none"@) && is_plain("0"@),
        is_plain("q8_0"@),
        "none"@.len() == 4 && "0"@.len() == 1 && "999"@.len() == 3,
{
    reveal_strlit("--model");
    reveal_strlit("--port");
    reveal_strlit("--host");
    reveal_strlit("--slot-save-path");
    reveal_strlit("--ctx-size");
    reveal_strlit("--slot-prompt-similarity");
    reveal_strlit("--parallel");
    reveal_strlit("--ctx-checkpoints");
    reveal_strlit("--cache-type-k");
    reveal_strlit("--cache-type-v");
    reveal_strlit("-fa");
    reveal_strlit("--no-mmap");
    reveal_strlit("--n-cpu-moe");
    reveal_strlit("--mmproj");
    reveal_strlit("--jinja");
    reveal_strlit("--chat-template-file");
    reveal_strlit("--n-gpu-layers");
    reveal_strlit("--device");
    reveal_strlit("--no-mmproj-offload");
    reveal_strlit("127.0.0.1");
    reveal_strlit("0.5");
    reveal_strlit("1");
    reveal_strlit("on");
    reveal_strlit("999");
    reveal_strlit("none");
    reveal_strlit("0");
    reveal_strlit("q8_0");
}

/// Which part of the command line an option belongs to.
spec fn part_of(option: Seq<char>) -> int {
    if option == "--model"@ || option == "--port"@ || option == "--host"@ {
        0
    } else if option == "--slot-save-path"@ {
        1
    } else if option == "--ctx-size"@ || option == "--slot-prompt-similarity"@ || option
        == "--parallel"@ || option == "--ctx-checkpoints"@ {
        2
    } else if option == "--cache-type-k"@ || option == "--cache-type-v"@ || option == "-fa"@ {
        3
    } else if option == "--no-mmap"@ || option == "--n-cpu-moe"@ {
        4
    } else if option == "--mmproj"@ {
        5
    } else if option == "--jinja"@ || option == "--chat-template-file"@ {
        6
    } else if option == "--device"@ || option == "--n-gpu-layers"@ || option
        == "--no-mmproj-offload"@ {
        7
    } else {
        8
    }
}

/// Whether all options in a part of the command line belong there.
spec fn keeps_to(args: Seq<Seq<char>>, k: int) -> bool {
    forall|i: int| 0 <= i < args.len() && !is_plain(#[trigger] args[i]) ==> part_of(args[i]) == k
}

proof fn first_parts_keep_apart(c: LlamaCppLaunchConfig, f: LaunchFacts)
    requires
        names_are_plain(c, f),
    ensures
        keeps_to(model_args(c), 0),
        keeps_to(cache_args(f), 1),
        keeps_to(slot_args(c), 2),
        keeps_to(kv_args(c), 3),
        keeps_to(memory_args(c), 4),
        keeps_to(vision_args(c, f), 5),
        template_args(f) matches Ok(t) ==> keeps_to(t, 6),
{
    options_are_told_apart();
    decimal_is_plain(c.port as nat);
    match c.ctx_size {
        Some(n) => decimal_is_plain(n as nat),
        None => {},
    }
    match c.n_cpu_moe {
        Some(n) => decimal_is_plain(n as nat),
        None => {},
    }
    decimal_is_plain(
        match c.parallel {
            Some(n) => n as nat,
            None => 1,
        },
    );
}

proof fn joined_is_plain(names: Seq<Seq<char>>)
    requires
        names.len() > 0,
        is_plain(names[0]),
    ensures
        is_plain(text::join(names, ","@)),
    decreases names.len(),
{
    reveal_strlit(",");
    if names.len() > 1 {
        joined_is_plain(names.drop_last());
        let before = text::join(names.drop_last(), ","@);
        let all = text::join(names, ","@);
        if before.len() > 0 {
            assert(all[0] == before[0]);
        } else {
            assert(all[0] == ',');
        }
    }
}

proof fn selected_are_devices(wanted: Seq<u32>, devices: Seq<Seq<char>>, chosen: bool, n: int)
    requires
        0 <= n <= wanted.len(),
    ensures
        selected(wanted, devices, chosen, n) matches Ok(names) ==> forall|i: int|
            0 <= i < names.len() ==> devices.contains(#[trigger] names[i]),
    decreases n,
{
    if n > 0 {
        selected_are_devices(wanted, devices, chosen, n - 1);
    }
}

proof fn device_part_keeps_apart(c: LlamaCppLaunchConfig, f: LaunchFacts)
    requires
        names_are_plain(c, f),
        device_args(c, f) is Ok,
    ensures
        keeps_to(device_args(c, f)->Ok_0, 7),
{
    options_are_told_apart();
    let devices = text::strings(f.devices@);
    let wanted = wanted_places(c);
    selected_are_devices(wanted, devices, c.gpu_explicit, wanted.len() as int);
    match selected(wanted, devices, c.gpu_explicit, wanted.len() as int) {
        Ok(names) => {
            if names.len() > 0 {
                assert(devices.contains(names[0]));
                let k = choose|k: int| 0 <= k < devices.len() && devices[k] == names[0];
                assert(devices[k] == f.devices@[k]@);
                joined_is_plain(names);
            }
        },
        Err(_) => {},
    }
}

/// An option that belongs to one part is given a value by all the arguments exactly where
/// that part gives it.
proof fn option_is_given_by_its_part(
    a: Seq<Seq<char>>,
    part: Seq<Seq<char>>,
    b: Seq<Seq<char>>,
    option: Seq<char>,
    value: Seq<char>,
)
    requires
        forall|i: int| 0 <= i < a.len() ==> #[trigger] a[i] != option,
        forall|i: int| 0 <= i < b.len() ==> #[trigger] b[i] != option,
        part.len() == 0 || part.last() != option,
    ensures
        gives(a + part + b, option, value) <==> gives(part, option, value),
{
    let all = a + part + b;
    if gives(all, option, value) {
        let i = choose|i: int|
            0 <= i < all.len() - 1 && #[trigger] all[i] == option && all[i + 1] == value;
        if i < a.len() {
            assert(all[i] == a[i]);
        } else if i >= a.len() + part.len() {
            assert(all[i] == b[i - a.len() - part.len()]);
        } else {
            let k = i - a.len();
            assert(all[i] == part[k]);
            assert(k < part.len() - 1);
            assert(part[k + 1] == all[i + 1]);
        }
    }
    if gives(part, option, value) {
        let k = choose|k: int|
            0 <= k < part.len() - 1 && #[trigger] part[k] == option && part[k + 1] == value;
        assert(all[a.len() + k] == part[k]);
        assert(all[a.len() + k + 1] == part[k + 1]);
    }
}

/// The parts of the command line before the one at `k`, and behind it.
spec fn parts(c: LlamaCppLaunchConfig, f: LaunchFacts) -> Seq<Seq<Seq<char>>> {
    seq![
        model_args(c),
        cache_args(f),
        slot_args(c),
        kv_args(c),
        memory_args(c),
        vision_args(c, f),
        template_args(f)->Ok_0,
        device_args(c, f)->Ok_0,
    ]
}

spec fn parts_from(p: Seq<Seq<Seq<char>>>, lo: int, hi: int) -> Seq<Seq<char>>
    decreases hi - lo,
{
    if lo >= hi {
        Seq::empty()
    } else {
        parts_from(p, lo, hi - 1) + p[hi - 1]
    }
}

proof fn parts_keep_apart(p: Seq<Seq<Seq<char>>>, lo: int, hi: int, option: Seq<char>)
    requires
        0 <= lo,
        hi <= p.len(),
        !is_plain(option),
        forall|k: int| lo <= k < hi ==> keeps_to(#[trigger] p[k], k),
        part_of(option) < lo || hi <= part_of(option),
    ensures
        forall|i: int| 0 <= i < parts_from(p, lo, hi).len() ==> #[trigger] parts_from(p, lo, hi)[i]
            != option,
    decreases hi - lo,
{
    if lo < hi {
        parts_keep_apart(p, lo, hi - 1, option);
        let before = parts_from(p, lo, hi - 1);
        let all = parts_from(p, lo, hi);
        assert forall|i: int| 0 <= i < all.len() implies #[trigger] all[i] != option by {
            if i < before.len() {
                assert(all[i] == before[i]);
            } else {
                assert(all[i] == p[hi - 1][i - before.len()]);
                assert(keeps_to(p[hi - 1], hi - 1));
            }
        }
    }
}

proof fn parts_add_up(p: Seq<Seq<Seq<char>>>, lo: int, mid: int, hi: int)
    requires
        lo <= mid <= hi,
    ensures
        parts_from(p, lo, hi) == parts_from(p, lo, mid) + parts_from(p, mid, hi),
    decreases hi - mid,
{
    if mid < hi {
        parts_add_up(p, lo, mid, hi - 1);
        assert(parts_from(p, lo, hi) =~= parts_from(p, lo, mid) + parts_from(p, mid, hi));
    } else {
        assert(parts_from(p, lo, mid) + Seq::<Seq<char>>::empty() =~= parts_from(p, lo, mid));
    }
}

/// The same, over the whole command line; and an option stands in it at all exactly where
/// it stands in its part.
#[verifier::spinoff_prover]
#[verifier::rlimit(40)]
proof fn option_stands_in_its_part(
    c: LlamaCppLaunchConfig,
    f: LaunchFacts,
    option: Seq<char>,
    value: Seq<char>,
)
    requires
        names_are_plain(c, f),
        server_args(c, f) is Ok,
        !is_plain(option),
        0 <= part_of(option) < 8,
    ensures
        ({
            let args = server_args(c, f)->Ok_0;
            let part = parts(c, f)[part_of(option)];
            &&& part.len() == 0 || part.last() != option ==> (gives(args, option, value) <==> gives(
                part,
                option,
                value,
            ))
            &&& args.contains(option) <==> part.contains(option)
        }),
{
    first_parts_keep_apart(c, f);
    device_part_keeps_apart(c, f);
    let p = parts(c, f);
    let k = part_of(option);
    let args = server_args(c, f)->Ok_0;
    assert forall|j: int| 0 <= j < 8 implies keeps_to(#[trigger] p[j], j) by {}
    assert(parts_from(p, 0, 8) == args) by {
        reveal_with_fuel(parts_from, 9);
        assert(parts_from(p, 0, 8) =~= args);
    }
    parts_add_up(p, 0, k, 8);
    parts_add_up(p, k, k + 1, 8);
    let (a, part, b) = (parts_from(p, 0, k), p[k], parts_from(p, k + 1, 8));
    assert(parts_from(p, k, k + 1) == part) by {
        reveal_with_fuel(parts_from, 2);
        assert(parts_from(p, k, k + 1) =~= part);
    }
    assert(args =~= a + part + b);
    parts_keep_apart(p, 0, k, option);
    parts_keep_apart(p, k + 1, 8, option);
    if part.len() == 0 || part.last() != option {
        option_is_given_by_its_part(a, part, b, option, value);
    }
    if args.contains(option) {
        let i = choose|i: int| 0 <= i < args.len() && args[i] == option;
        if i < a.len() {
            assert(args[i] == a[i]);
        } else if i >= a.len() + part.len() {
            assert(args[i] == b[i - a.len() - part.len()]);
        } else {
            assert(part[i - a.len()] == option);
        }
    }
    if part.contains(option) {
        let i = choose|i: int| 0 <= i < part.len() && part[i] == option;
        assert(args[a.len() + i] == option);
    }
}

/// The vision tower is loaded, by the path that is set for it, exactly where there is such
/// a path, vision is not switched off and the file is there.
pub proof fn vision_is_served_where_it_can_be(
    c: LlamaCppLaunchConfig,
    f: LaunchFacts,
    path: Seq<char>,
)
    requires
        names_are_plain(c, f),
        server_args(c, f) is Ok,
    ensures
        gives(server_args(c, f)->Ok_0, "--mmproj"@, path) <==> (text::optional(c.mmproj_path)
            == Some(path) && c.vision != Some(false) && f.mmproj_exists),
        !f.mmproj_exists || c.vision == Some(false) || c.mmproj_path is None
            ==> !server_args(c, f)->Ok_0.contains("--mmproj"@),
{
    options_are_told_apart();
    option_stands_in_its_part(c, f, "--mmproj"@, path);
    let part = vision_args(c, f);
    if text::optional(c.mmproj_path) == Some(path) && c.vision != Some(false) && f.mmproj_exists {
        assert(part[0] == "--mmproj"@ && part[1] == path);
    }
}

/// The server is given the model, the address and the cache directory that are set.
pub proof fn model_and_place_are_given(c: LlamaCppLaunchConfig, f: LaunchFacts, value: Seq<char>)
    requires
        names_are_plain(c, f),
        server_args(c, f) is Ok,
    ensures
        ({
            let args = server_args(c, f)->Ok_0;
            &&& gives(args, "--model"@, value) <==> value == c.model_path@
            &&& gives(args, "--port"@, value) <==> value == text::decimal(c.port as nat)
            &&& gives(args, "--host"@, value) <==> value == "127.0.0.1"@
            &&& gives(args, "--slot-save-path"@, value) <==> (f.cache matches Some((dir, _))
                && dir@ == value)
        }),
{
    options_are_told_apart();
    decimal_is_plain(c.port as nat);
    option_stands_in_its_part(c, f, "--model"@, value);
    option_stands_in_its_part(c, f, "--port"@, value);
    option_stands_in_its_part(c, f, "--host"@, value);
    option_stands_in_its_part(c, f, "--slot-save-path"@, value);
    let m = model_args(c);
    assert(m[0] == "--model"@ && m[1] == c.model_path@);
    assert(m[2] == "--port"@ && m[3] == text::decimal(c.port as nat));
    assert(m[4] == "--host"@ && m[5] == "127.0.0.1"@);
    let d = cache_args(f);
    if d.len() > 0 {
        assert(d[0] == "--slot-save-path"@ && d[1] == f.cache.unwrap().0@);
    }
}

/// The server is given the context size that is set, if any, and as many slots as are set,
/// one where none are.
pub proof fn context_and_slots_are_given(
    c: LlamaCppLaunchConfig,
    f: LaunchFacts,
    value: Seq<char>,
)
    requires
        names_are_plain(c, f),
        server_args(c, f) is Ok,
    ensures
        ({
            let args = server_args(c, f)->Ok_0;
            &&& gives(args, "--ctx-size"@, value) <==> (c.ctx_size matches Some(n) && value
                == text::decimal(n as nat))
            &&& gives(args, "--parallel"@, value) <==> value == match c.parallel {
                Some(n) => text::decimal(n as nat),
                None => text::decimal(1),
            }
            &&& gives(args, "--ctx-checkpoints"@, value) <==> value == "1"@
            &&& gives(args, "--slot-prompt-similarity"@, value) <==> value == "0.5"@
        }),
{
    options_are_told_apart();
    let slots = text::decimal(
        match c.parallel {
            Some(n) => n as nat,
            None => 1,
        },
    );
    decimal_is_plain(
        match c.parallel {
            Some(n) => n as nat,
            None => 1,
        },
    );
    option_stands_in_its_part(c, f, "--ctx-size"@, value);
    option_stands_in_its_part(c, f, "--parallel"@, value);
    option_stands_in_its_part(c, f, "--ctx-checkpoints"@, value);
    option_stands_in_its_part(c, f, "--slot-prompt-similarity"@, value);
    let p = slot_args(c);
    let n: int = match c.ctx_size {
        Some(k) => {
            decimal_is_plain(k as nat);
            assert(p[0] == "--ctx-size"@ && p[1] == text::decimal(k as nat));
            2
        },
        None => 0,
    };
    assert(p.len() == n + 6);
    assert(p[n] == "--slot-prompt-similarity"@ && p[n + 1] == "0.5"@);
    assert(p[n + 2] == "--parallel"@ && p[n + 3] == slots);
    assert(p[n + 4] == "--ctx-checkpoints"@ && p[n + 5] == "1"@);
}

/// Whether a cache type leaves the choice to the server: none is named, or `f16` or `off`
/// in whatever case.
pub open spec fn leaves_the_cache_open(kv: Seq<char>) -> bool {
    ||| text::is_blank(kv)
    ||| text::lower(text::trim(kv)) == "f16"@
    ||| text::lower(text::trim(kv)) == "off"@
}

/// A cache type that is named is used for both caches, with flash attention on; else the
/// server is told nothing of them.
pub proof fn cache_types_are_given(c: LlamaCppLaunchConfig, f: LaunchFacts, value: Seq<char>)
    requires
        names_are_plain(c, f),
        server_args(c, f) is Ok,
    ensures
        ({
            let args = server_args(c, f)->Ok_0;
            let named = !leaves_the_cache_open(c.kv_cache@);
            &&& gives(args, "--cache-type-k"@, value) <==> named && value == text::trim(
                c.kv_cache@,
            )
            &&& gives(args, "--cache-type-v"@, value) <==> named && value == text::trim(
                c.kv_cache@,
            )
            &&& gives(args, "-fa"@, value) <==> named && value == "on"@
        }),
{
    options_are_told_apart();
    text::trim_of_blank(c.kv_cache@);
    reveal_strlit("f16");
    reveal_strlit("off");
    assert(text::lower("f16"@) =~= "f16"@);
    assert(text::lower("off"@) =~= "off"@);
    option_stands_in_its_part(c, f, "--cache-type-k"@, value);
    option_stands_in_its_part(c, f, "--cache-type-v"@, value);
    option_stands_in_its_part(c, f, "-fa"@, value);
    let p = kv_args(c);
    if p.len() > 0 {
        let kv = text::trim(c.kv_cache@);
        assert(p[0] == "--cache-type-k"@ && p[1] == kv && p[2] == "--cache-type-v"@ && p[3] == kv
            && p[4] == "-fa"@ && p[5] == "on"@);
    }
}

/// The weights are read whole into memory exactly where mapping is switched off, and as many
/// expert layers stay on the processor as are set.
pub proof fn memory_settings_are_given(c: LlamaCppLaunchConfig, f: LaunchFacts, value: Seq<char>)
    requires
        names_are_plain(c, f),
        server_args(c, f) is Ok,
    ensures
        ({
            let args = server_args(c, f)->Ok_0;
            &&& args.contains("--no-mmap"@) <==> c.mmap == Some(false)
            &&& gives(args, "--n-cpu-moe"@, value) <==> (c.n_cpu_moe matches Some(n) && value
                == text::decimal(n as nat))
        }),
{
    options_are_told_apart();
    option_stands_in_its_part(c, f, "--no-mmap"@, value);
    option_stands_in_its_part(c, f, "--n-cpu-moe"@, value);
    let p = memory_args(c);
    if c.mmap == Some(false) {
        assert(p[0] == "--no-mmap"@);
    }
    match c.n_cpu_moe {
        Some(n) => {
            decimal_is_plain(n as nat);
            let k: int = if c.mmap == Some(false) {
                1
            } else {
                0
            };
            assert(p[k] == "--n-cpu-moe"@ && p[k + 1] == text::decimal(n as nat));
            assert(p.last() == p[k + 1]);
        },
        None => {
            if p.len() > 0 {
                assert(p.last() == "--no-mmap"@);
            }
        },
    }
}

/// A template that is there is used; the server is launched without one for the raw
/// transport only.
pub proof fn templates_are_needed_unless_raw(
    c: LlamaCppLaunchConfig,
    f: LaunchFacts,
    path: Seq<char>,
)
    ensures
        server_args(c, f) is Ok ==> f.model_exists && (f.raw || f.template matches Some((_, true))),
        server_args(c, f) is Ok && names_are_plain(c, f) ==> {
            let args = server_args(c, f)->Ok_0;
            &&& gives(args, "--chat-template-file"@, path) <==> (f.template matches Some((p, true))
                && p@ == path)
            &&& args.contains("--jinja"@) <==> f.template matches Some((_, true))
        },
        f.model_exists && (f.raw || f.template matches Some((_, true))) && (!c.gpu_explicit
            || c.gpu@.len() == 0) ==> server_args(c, f) is Ok,
{
    options_are_told_apart();
    choices_are_kept(c, f);
    if server_args(c, f) is Ok && names_are_plain(c, f) {
        option_stands_in_its_part(c, f, "--chat-template-file"@, path);
        option_stands_in_its_part(c, f, "--jinja"@, path);
        let p = template_args(f)->Ok_0;
        if p.len() > 0 {
            assert(p[0] == "--jinja"@ && p[1] == "--chat-template-file"@ && p[2]
                == f.template.unwrap().0@);
        }
    }
}

proof fn chosen_devices_are_all_there(wanted: Seq<u32>, devices: Seq<Seq<char>>, n: int)
    requires
        0 <= n <= wanted.len(),
    ensures
        (forall|i: int| 0 <= i < n ==> (#[trigger] wanted[i]) < devices.len()) ==> selected(
            wanted,
            devices,
            true,
            n,
        ) == Ok::<Seq<Seq<char>>, u32>(
            Seq::new(n as nat, |i: int| devices[wanted[i] as int]),
        ),
        (exists|i: int| 0 <= i < n && (#[trigger] wanted[i]) >= devices.len()) ==> selected(
            wanted,
            devices,
            true,
            n,
        ) is Err,
    decreases n,
{
    if n > 0 {
        chosen_devices_are_all_there(wanted, devices, n - 1);
        let all = Seq::new(n as nat, |i: int| devices[wanted[i] as int]);
        assert(all.drop_last() =~= Seq::new((n - 1) as nat, |i: int| devices[wanted[i] as int]));
        if forall|i: int| 0 <= i < n ==> (#[trigger] wanted[i]) < devices.len() {
            assert(wanted[n - 1] < devices.len());
            assert(all =~= all.drop_last().push(devices[wanted[n - 1] as int]));
        }
    } else {
        assert(Seq::new(0, |i: int| devices[wanted[i] as int]) =~= Seq::<Seq<char>>::empty());
    }
}

/// Devices that were chosen by their places are named to the server, in that order; a place
/// that is not on its list is refused, and so is a choice where nothing is listed.
pub proof fn chosen_devices_are_named(c: LlamaCppLaunchConfig, f: LaunchFacts, value: Seq<char>)
    requires
        names_are_plain(c, f),
        c.gpu_explicit,
        c.gpu@.len() > 0,
    ensures
        ({
            let devices = text::strings(f.devices@);
            let there = forall|i: int|
                0 <= i < c.gpu@.len() ==> (#[trigger] c.gpu@[i]) < devices.len();
            let names = Seq::new(c.gpu@.len(), |i: int| devices[c.gpu@[i] as int]);
            &&& server_args(c, f) is Ok ==> there && {
                let args = server_args(c, f)->Ok_0;
                &&& gives(args, "--device"@, value) <==> value == text::join(names, ","@)
                &&& gives(args, "--n-gpu-layers"@, value) <==> value == "999"@
                &&& !args.contains("--no-mmproj-offload"@)
            }
            &&& there && f.model_exists && (f.raw || f.template matches Some((_, true)))
                ==> server_args(c, f) is Ok
        }),
{
    options_are_told_apart();
    let devices = text::strings(f.devices@);
    let n = c.gpu@.len() as int;
    let names = Seq::new(c.gpu@.len(), |i: int| devices[c.gpu@[i] as int]);
    chosen_devices_are_all_there(c.gpu@, devices, n);
    if devices.len() == 0 {
        assert(c.gpu@[0] >= devices.len());
    }
    if server_args(c, f) is Ok {
        option_stands_in_its_part(c, f, "--device"@, value);
        option_stands_in_its_part(c, f, "--n-gpu-layers"@, value);
        option_stands_in_its_part(c, f, "--no-mmproj-offload"@, value);
        let p = device_args(c, f)->Ok_0;
        assert(p =~= seq!["--n-gpu-layers"@, "999"@, "--device"@, text::join(names, ","@)]);
        assert(p[0] == "--n-gpu-layers"@ && p[1] == "999"@ && p[2] == "--device"@);
        assert(names[0] == f.devices@[c.gpu@[0] as int]@);
        joined_is_plain(names);
        assert(p.last() == text::join(names, ","@));
    }
}

/// CPU only keeps the model and the vision tower off every device; without a choice all
/// layers go to a device, the first that is listed unless the environment masks devices.
pub proof fn other_machines_are_served(c: LlamaCppLaunchConfig, f: LaunchFacts, value: Seq<char>)
    requires
        names_are_plain(c, f),
        server_args(c, f) is Ok,
        !c.gpu_explicit || c.gpu@.len() == 0,
    ensures
        ({
            let args = server_args(c, f)->Ok_0;
            &&& c.gpu_explicit ==> (gives(args, "--device"@, value) <==> value == "none"@)
            &&& c.gpu_explicit ==> (gives(args, "--n-gpu-layers"@, value) <==> value == "0"@)
            &&& args.contains("--no-mmproj-offload"@) <==> c.gpu_explicit
            &&& !c.gpu_explicit ==> (gives(args, "--n-gpu-layers"@, value) <==> value == "999"@)
            &&& !c.gpu_explicit ==> (gives(args, "--device"@, value) <==> !f.inherited_mask
                && f.devices@.len() > 0 && value == f.devices@[0]@)
        }),
{
    options_are_told_apart();
    option_stands_in_its_part(c, f, "--device"@, value);
    option_stands_in_its_part(c, f, "--n-gpu-layers"@, value);
    option_stands_in_its_part(c, f, "--no-mmproj-offload"@, value);
    let p = device_args(c, f)->Ok_0;
    let devices = text::strings(f.devices@);
    if c.gpu_explicit {
        assert(p[0] == "--device"@ && p[1] == "none"@ && p[2] == "--n-gpu-layers"@ && p[3] == "0"@
            && p[4] == "--no-mmproj-offload"@);
        assert(p.last() == "--no-mmproj-offload"@);
    } else {
        assert(p[0] == "--n-gpu-layers"@ && p[1] == "999"@);
        reveal_with_fuel(selected, 2);
        if !f.inherited_mask && devices.len() > 0 {
            let names = selected(wanted_places(c), devices, false, 1)->Ok_0;
            assert(names =~= seq![devices[0]]);
            assert(devices[0] == f.devices@[0]@);
            assert(p[2] == "--device"@ && p[3] == devices[0]);
            assert(p.last() == devices[0]);
        } else {
            assert(p.len() == 2);
        }
    }
}

/// The devices are those that are listed; none where that is said, in whatever case, and
/// the first where nothing is.
pub proof fn devices_are_read_from_their_list(devices: Seq<u32>, blank: Seq<char>, word: Seq<char>)
    requires
        devices.len() > 0,
        text::is_blank(blank),
        word.len() == 4,
        word[0] == 'n' || word[0] == 'N',
        word[1] == 'o' || word[1] == 'O',
        word[2] == 'n' || word[2] == 'N',
        word[3] == 'e' || word[3] == 'E',
    ensures
        devices_of(None) == Ok::<(Seq<u32>, bool), NumberError>((seq![0u32], false)),
        devices_of(Some(blank)) == Ok::<(Seq<u32>, bool), NumberError>((seq![0u32], false)),
        devices_of(Some(word)) == Ok::<(Seq<u32>, bool), NumberError>((Seq::<u32>::empty(), true)),
        devices_of(
            Some(text::join(devices.map_values(|n: u32| text::decimal(n as nat)), seq![','])),
        ) == Ok::<(Seq<u32>, bool), NumberError>((devices, true)),
{
    reveal_strlit("none");
    let none = Seq::<char>::empty();
    text::white_below_delete(word[0]);
    text::white_below_delete(word[3]);
    text::trim_takes_off_the_white(none, word, none);
    assert(none + word + none =~= word);
    assert(text::lower("none"@) =~= "none"@);
    assert(text::lower(word) =~= "none"@);
    assert(!text::is_white(word[0]));
    settings::lists_of_numbers_are_read_back(devices);
    let rows = devices.map_values(|n: u32| text::decimal(n as nat));
    let list = text::join(rows, seq![',']);
    starts_with_a_digit(rows);
    text::white_below_delete(list[0]);
    assert(!text::is_white(list[0]));
    text::trim_start_shape(list);
    text::trim_end_shape(text::trim_start(list));
    let t = text::trim(list);
    text::trim_of_blank(list);
    assert(text::trim_start(list) == list);
    assert(t[0] == list[0]);
    assert(text::lower(t)[0] == t[0]);
    assert(text::lower("none"@)[0] == 'n');
}

proof fn starts_with_a_digit(rows: Seq<Seq<char>>)
    requires
        rows.len() > 0,
        rows[0].len() > 0 && '0' <= rows[0][0] <= '9' || exists|n: nat| rows[0] == text::decimal(n),
    ensures
        text::join(rows, seq![',']).len() > 0,
        '0' <= text::join(rows, seq![','])[0] <= '9',
    decreases rows.len(),
{
    if !(rows[0].len() > 0 && '0' <= rows[0][0] <= '9') {
        let n = choose|n: nat| rows[0] == text::decimal(n);
        text::numerals_are_not_trimmed(n, Seq::empty(), Seq::empty());
    }
    if rows.len() > 1 {
        assert(rows.drop_last()[0] == rows[0]);
        starts_with_a_digit(rows.drop_last());
    }
}

/// A number that is set is read as it is, and not where blanks are around it.
pub proof fn bare_numbers_are_read(n: nat)
    ensures
        bare_number(Some(text::decimal(n))) == if n <= u32::MAX {
            Some(n)
        } else {
            None
        },
        bare_number(None) is None,
        bare_number(Some(seq![' '] + text::decimal(n))) is None,
{
    let none = Seq::<char>::empty();
    let d = text::decimal(n);
    text::numerals_are_not_trimmed(n, none, none);
    text::numbers_are_read_back(n, u32::MAX as nat, none);
    assert(none + d =~= d);
    text::white_below_delete(d[0]);
    assert(!text::is_blank(d));
    let padded = seq![' '] + d;
    assert(padded[0] == ' ');
    if text::parse_unsigned(padded, u32::MAX as nat) is Some {
        text::only_numerals_are_numbers(padded, u32::MAX as nat, 0);
    }
}

/// The server is the one that is set, else the one beside this program, else the one that is
/// found by its name.
pub proof fn servers_are_looked_for_in_turn(v: Seq<char>, blank: Seq<char>, sibling: Option<Seq<char>>)
    requires
        !text::is_blank(v),
        text::is_blank(blank),
    ensures
        server_of(Some(v), sibling) == v,
        server_of(None, Some(v)) == v,
        server_of(Some(blank), Some(v)) == v,
        server_of(None, None) == "llama-server"@,
{
}

/// The output of the server goes where it is said to, else below the home of this program,
/// else below that of the user, by either name, else to the place for what is temporary.
pub proof fn server_logs_have_their_place(
    v: Seq<char>,
    home: Option<Seq<char>>,
    profile: Option<Seq<char>>,
    temporary: Seq<char>,
)
    requires
        !text::is_blank(v),
    ensures
        forall|m: Option<Seq<char>>| #[trigger] log_place(Some(v), m, home, profile, temporary) == v,
        log_place(None, Some(v), home, profile, temporary) == text::path_under(
            v,
            "llama-server.log"@,
        ),
        log_place(None, None, Some(v), profile, temporary) == text::path_under(
            text::path_under(v, ".millie"@),
            "llama-server.log"@,
        ),
        log_place(None, None, None, Some(v), temporary) == text::path_under(
            text::path_under(v, ".millie"@),
            "llama-server.log"@,
        ),
        log_place(None, None, None, None, temporary) == text::path_under(
            temporary,
            "llama-server.log"@,
        ),
{
}

/// The first of the places that is there is taken, and none where none is.
pub proof fn the_first_place_that_is_there_is_taken(
    places: Seq<Seq<char>>,
    present: Seq<bool>,
    i: int,
    at: int,
)
    requires
        0 <= i <= at <= places.len(),
        forall|k: int| 0 <= k < at ==> !#[trigger] present[k],
    ensures
        at == places.len() ==> first_present(places, present, i) is None,
        at < places.len() && present[at] ==> first_present(places, present, i) == Some(places[at]),
    decreases at - i,
{
    if i < at {
        assert(!present[i]);
        the_first_place_that_is_there_is_taken(places, present, i + 1, at);
    }
}

/// A device is named at the front of its line, before a colon, by letters and digits with a
/// letter first and a digit last; the devices are named in the order of their lines, and other
/// lines name none.
pub proof fn lines_name_devices(blank: Seq<char>, name: Seq<char>, rest: Seq<char>, lines: Seq<Seq<char>>, line: Seq<char>)
    requires
        text::is_blank(blank),
        is_device_name(name),
    ensures
        device_in(blank + (name + seq![':'] + rest)) == Some(name),
        !line.contains(':') ==> device_in(line) is None,
        devices_in(lines.push(blank + (name + seq![':'] + rest)), lines.len() as int + 1)
            == devices_in(lines, lines.len() as int).push(name),
        device_in(line) is None ==> devices_in(lines.push(line), lines.len() as int + 1)
            == devices_in(lines, lines.len() as int),
{
    let named = name + seq![':'] + rest;
    text::trim_start_drops_white(blank, named);
    assert(named[0] == name[0]);
    assert(!text::is_white(name[0])) by {
        text::white_below_delete(name[0]);
    }
    assert(text::trim_start(named) == named);
    text::upto_shape(named, ':');
    assert(named[name.len() as int] == ':');
    if text::upto(named, ':') < name.len() {
        assert(named[text::upto(named, ':')] == name[text::upto(named, ':')]);
        assert(text::is_alphanumeric(name[text::upto(named, ':')]));
    }
    assert(named.take(name.len() as int) =~= name);
    assert(named.skip(name.len() as int + 1) =~= rest);
    if !line.contains(':') {
        let t = text::trim_start(line);
        text::trim_start_shape(line);
        text::upto_shape(t, ':');
        if text::upto(t, ':') < t.len() {
            let i = text::upto(t, ':');
            assert(line[line.len() - t.len() + i] == ':');
        }
    }
    same_devices(lines, blank + named, lines.len() as int);
    same_devices(lines, line, lines.len() as int);
    assert(lines.push(line)[lines.len() as int] == line);
    assert(lines.push(blank + named)[lines.len() as int] == blank + named);
}

proof fn same_devices(lines: Seq<Seq<char>>, last: Seq<char>, n: int)
    requires
        0 <= n <= lines.len(),
    ensures
        devices_in(lines.push(last), n) == devices_in(lines, n),
    decreases n,
{
    if n > 0 {
        same_devices(lines, last, n - 1);
        assert(lines.push(last)[n - 1] == lines[n - 1]);
    }
}

/// A device has a name of letters and digits only, with a letter first and a digit last.
pub proof fn device_names_end_in_a_digit(name: Seq<char>, i: int)
    requires
        0 <= i < name.len(),
    ensures
        !('0' <= name.last() <= '9') ==> !is_device_name(name),
        ('0' <= name[0] <= '9') ==> !is_device_name(name),
        name[i] == ' ' || name[i] == '-' || name[i] == '_' ==> !is_device_name(name),
        !is_device_name(Seq::empty()),
{
    if is_device_name(name) {
        assert(text::is_alphanumeric(name[i]));
    }
}

/// The end of a text are its last lines, as many as are asked for or all where there are
/// fewer.
pub proof fn the_last_lines_are_shown(front: Seq<Seq<char>>, end: Seq<Seq<char>>)
    ensures
        last_lines(front + end, end.len()) == end,
        last_lines(end, end.len() + 1) == end,
{
    assert((front + end).skip(front.len() as int) =~= end);
    if front.len() == 0 {
        assert(front + end =~= end);
    }
}

/// The prompt cache lies in the directory of caches that is set, else beside the model, under
/// the front of its key.
pub proof fn caches_lie_beside_the_model(b: Seq<char>, d: Seq<char>, key: Seq<char>, model_dir: Option<Seq<char>>)
    requires
        !text::is_blank(b),
        key.len() >= 16,
    ensures
        cache_place(Some(b), model_dir, key) == Some(text::path_under(b, key.subrange(0, 16))),
        cache_place(None, Some(d), key) == Some(
            text::path_under(text::path_under(d, "kvcache"@), key.subrange(0, 16)),
        ),
        cache_place(None, None, key) is None,
{
    assert(key.take(16) =~= key.subrange(0, 16));
}

/// Whether every word that is no option stands right behind one.
pub open spec fn values_stand_behind_options(args: Seq<Seq<char>>) -> bool {
    forall|i: int| 0 <= i < args.len() && is_plain(#[trigger] args[i]) ==> i > 0 && !is_plain(args[i - 1])
}

/// Nothing stands on the command line but options and, at most one behind each, their values.
pub proof fn nothing_else_is_given(c: LlamaCppLaunchConfig, f: LaunchFacts)
    requires
        server_args(c, f) is Ok,
    ensures
        values_stand_behind_options(server_args(c, f)->Ok_0),
{
    options_are_told_apart();
    let template = template_args(f)->Ok_0;
    let device = device_args(c, f)->Ok_0;
    let (a, b, s, k) = (model_args(c), cache_args(f), slot_args(c), kv_args(c));
    let (m, v) = (memory_args(c), vision_args(c, f));
    assert(values_stand_behind_options(a));
    assert(values_stand_behind_options(b));
    assert(values_stand_behind_options(s));
    assert(values_stand_behind_options(k));
    assert(values_stand_behind_options(m));
    assert(values_stand_behind_options(v));
    assert(values_stand_behind_options(template));
    assert(values_stand_behind_options(device));
    stand_behind_in_both(a, b);
    stand_behind_in_both(a + b, s);
    stand_behind_in_both(a + b + s, k);
    stand_behind_in_both(a + b + s + k, m);
    stand_behind_in_both(a + b + s + k + m, v);
    stand_behind_in_both(a + b + s + k + m + v, template);
    stand_behind_in_both(a + b + s + k + m + v + template, device);
}

proof fn stand_behind_in_both(a: Seq<Seq<char>>, b: Seq<Seq<char>>)
    requires
        values_stand_behind_options(a),
        values_stand_behind_options(b),
    ensures
        values_stand_behind_options(a + b),
{
    let all = a + b;
    assert forall|i: int| 0 <= i < all.len() && is_plain(#[trigger] all[i]) implies i > 0 && !is_plain(
        all[i - 1],
    ) by {
        if i < a.len() {
            assert(all[i] == a[i]);
            assert(all[i - 1] == a[i - 1]);
        } else {
            let j = i - a.len();
            assert(all[i] == b[j]);
            assert(j > 0);
            assert(all[i - 1] == b[j - 1]);
        }
    }
}

} // verus!
