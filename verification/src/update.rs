//! Self-update decisions: which release asset fits this machine, how long
//! a release lookup stays fresh, and whether an update is offered or may
//! be applied.
use vstd::prelude::*;
use crate::text::{to_chars, string_from_chars, push_str, push_char};
use crate::paths::{str_eq, str_contains, contains_seq};
use crate::http::{parse_version_spec, triple_gt, version_gt};
use crate::index::opt_view;

verus! {

/// How long a release lookup is reused, in seconds.
pub const UPDATE_CACHE_TTL_SECS: u64 = 3600;

/// A release lookup kept for reuse.
pub struct CachedUpdateCheck {
    /// When the lookup was made, in seconds of a monotonic clock.
    pub checked_at: u64,
    pub latest_version: String,
    pub asset_url: Option<String>,
}

impl CachedUpdateCheck {
    /// Whether the lookup is still fresh at time `now` (same clock): less
    /// than `UPDATE_CACHE_TTL_SECS` has elapsed, counting a clock that
    /// reads earlier than `checked_at` as no time elapsed.
    pub fn is_fresh(&self, now: u64) -> (b: bool)
        ensures
            b == (now < self.checked_at || now - self.checked_at < UPDATE_CACHE_TTL_SECS),
    {
        now < self.checked_at || now - self.checked_at < UPDATE_CACHE_TTL_SECS
    }
}

/// The release asset suffix of a machine, from its architecture and
/// operating system names.
pub open spec fn platform_suffix_spec(arch: Seq<char>, os: Seq<char>) -> Option<Seq<char>> {
    if os == "linux"@ {
        if arch == "x86_64"@ {
            Some("x86_64-linux"@)
        } else if arch == "arm"@ {
            Some("armv7-linux"@)
        } else if arch == "aarch64"@ {
            Some("aarch64-linux"@)
        } else {
            None
        }
    } else {
        None
    }
}

/// The release asset suffix for `arch` and `os` (see
/// `platform_suffix_spec`).
pub fn platform_suffix(arch: &str, os: &str) -> (r: Option<String>)
    ensures
        opt_view(r) == platform_suffix_spec(arch@, os@),
{
    if !str_eq(os, "linux") {
        return None;
    }
    if str_eq(arch, "x86_64") {
        Some("x86_64-linux".to_owned())
    } else if str_eq(arch, "arm") {
        Some("armv7-linux".to_owned())
    } else if str_eq(arch, "aarch64") {
        Some("aarch64-linux".to_owned())
    } else {
        None
    }
}

/// `s` without its leading `v` characters.
pub open spec fn trim_leading_v(s: Seq<char>) -> Seq<char>
    decreases s.len(),
{
    if s.len() > 0 && s[0] == 'v' { trim_leading_v(s.drop_first()) } else { s }
}

/// The version named by a release tag: the tag without its leading `v`s,
/// empty when there is no tag.
pub fn version_from_tag(tag: Option<&str>) -> (r: String)
    ensures
        r@ == match tag { Some(t) => trim_leading_v(t@), None => Seq::empty() },
{
    match tag {
        None => String::new(),
        Some(t) => {
            let v = to_chars(t);
            let mut i: usize = 0;
            assert(v@.subrange(0, v@.len() as int) =~= v@);
            while i < v.len() && v[i] == 'v'
                invariant
                    i <= v@.len(),
                    v@ == t@,
                    trim_leading_v(v@) == trim_leading_v(v@.subrange(i as int, v@.len() as int)),
                decreases v@.len() - i,
            {
                assert(v@.subrange(i as int, v@.len() as int).drop_first() =~= v@.subrange(i + 1, v@.len() as int));
                i = i + 1;
            }
            assert(v@.subrange(0, v@.len() as int) =~= v@);
            string_from_chars(&v, i, v.len())
        },
    }
}

/// The download address of the first asset whose name holds `suffix`
/// (none without a suffix, or when that asset has no address).
pub open spec fn asset_url_spec(assets: Seq<(Option<String>, Option<String>)>, suffix: Seq<char>, k: int) -> Option<Seq<char>>
    decreases assets.len() - k,
{
    if k < 0 || k >= assets.len() {
        None
    } else {
        match assets[k].0 {
            Some(name) => if contains_seq(name@, suffix) { opt_view(assets[k].1) } else { asset_url_spec(assets, suffix, k + 1) },
            None => asset_url_spec(assets, suffix, k + 1),
        }
    }
}

/// Picks the release asset for this machine from (name, address) pairs.
pub fn pick_asset_url(assets: &Vec<(Option<String>, Option<String>)>, suffix: Option<&str>) -> (r: Option<String>)
    ensures
        opt_view(r) == match suffix { Some(s) => asset_url_spec(assets@, s@, 0), None => None },
{
    let sfx = match suffix {
        Some(s) => s,
        None => { return None; },
    };
    let mut k: usize = 0;
    while k < assets.len()
        invariant
            k <= assets@.len(),
            suffix == Some(sfx),
            asset_url_spec(assets@, sfx@, 0) == asset_url_spec(assets@, sfx@, k as int),
        decreases assets@.len() - k,
    {
        match &assets[k].0 {
            Some(name) => {
                if str_contains(name.as_str(), sfx) {
                    assert(asset_url_spec(assets@, sfx@, k as int) == opt_view(assets@[k as int].1));
                    return match &assets[k].1 {
                        Some(u) => Some(u.clone()),
                        None => None,
                    };
                }
            },
            None => {},
        }
        k = k + 1;
    }
    None
}

/// The answer to an update check.
pub struct UpdateVerdict {
    pub update_available: bool,
    pub restart_supported: bool,
    pub restart_unsupported_reason: Option<String>,
}

/// `No release asset found for this platform (<suffix>)`, with `unknown`
/// for a machine without a suffix.
pub open spec fn no_asset_reason(suffix: Option<Seq<char>>) -> Seq<char> {
    "No release asset found for this platform ("@ + match suffix { Some(s) => s, None => "unknown"@ } + ")"@
}

/// `Server is not running under systemd`
pub open spec fn not_systemd_reason() -> Seq<char> {
    "Server is not running under systemd"@
}

/// The suffix, or `unknown`.
fn suffix_or_unknown(suffix: Option<&str>) -> (r: String)
    ensures
        r@ == match suffix { Some(s) => s@, None => "unknown"@ },
{
    match suffix {
        Some(s) => s.to_owned(),
        None => "unknown".to_owned(),
    }
}

/// Decides an update check: an update is offered when the latest version
/// is newer and an asset exists; a restart is possible only under systemd
/// and with an asset, else the reason why not.
pub fn update_verdict(latest: &str, current: &str, has_asset: bool, under_systemd: bool, suffix: Option<&str>) -> (r: UpdateVerdict)
    ensures
        r.update_available == (has_asset && match (parse_version_spec(latest@), parse_version_spec(current@)) {
            (Some(x), Some(y)) => triple_gt(x, y),
            _ => false,
        }),
        r.restart_supported == (under_systemd && has_asset),
        opt_view(r.restart_unsupported_reason) == (if !under_systemd {
            Some(not_systemd_reason())
        } else if !has_asset {
            Some(no_asset_reason(match suffix { Some(s) => Some(s@), None => None }))
        } else {
            None
        }),
{
    let update_available = version_gt(latest, current) && has_asset;
    if !under_systemd {
        UpdateVerdict { update_available, restart_supported: false, restart_unsupported_reason: Some("Server is not running under systemd".to_owned()) }
    } else if !has_asset {
        let mut m = "No release asset found for this platform (".to_owned();
        let sfx = suffix_or_unknown(suffix);
        push_str(&mut m, sfx.as_str());
        push_str(&mut m, ")");
        UpdateVerdict { update_available, restart_supported: false, restart_unsupported_reason: Some(m) }
    } else {
        UpdateVerdict { update_available, restart_supported: true, restart_unsupported_reason: None }
    }
}

/// `Already on the latest version (<current>)`
pub open spec fn already_latest_message(current: Seq<char>) -> Seq<char> {
    "Already on the latest version ("@ + current + ")"@
}

/// `No release asset for this platform (<suffix>)`, with `unknown` for a
/// machine without a suffix.
pub open spec fn apply_no_asset_message(suffix: Option<Seq<char>>) -> Seq<char> {
    "No release asset for this platform ("@ + match suffix { Some(s) => s, None => "unknown"@ } + ")"@
}

/// Whether an update may be applied: the latest version must be newer
/// than the current one, then an asset must exist; gives the asset's
/// address, or the message refusing the update.
pub fn apply_precheck(latest: &str, current: &str, asset_url: Option<String>, suffix: Option<&str>) -> (r: Result<String, String>)
    ensures
        match r {
            Ok(u) => asset_url == Some(u) && match (parse_version_spec(latest@), parse_version_spec(current@)) {
                (Some(x), Some(y)) => triple_gt(x, y),
                _ => false,
            },
            Err(m) => if !match (parse_version_spec(latest@), parse_version_spec(current@)) {
                (Some(x), Some(y)) => triple_gt(x, y),
                _ => false,
            } {
                m@ == already_latest_message(current@)
            } else {
                asset_url is None && m@ == apply_no_asset_message(match suffix { Some(s) => Some(s@), None => None })
            },
        },
{
    if !version_gt(latest, current) {
        let mut m = "Already on the latest version (".to_owned();
        push_str(&mut m, current);
        push_str(&mut m, ")");
        return Err(m);
    }
    match asset_url {
        Some(u) => Ok(u),
        None => {
            let mut m = "No release asset for this platform (".to_owned();
            let sfx = suffix_or_unknown(suffix);
            push_str(&mut m, sfx.as_str());
            push_str(&mut m, ")");
            Err(m)
        },
    }
}

} // verus!
