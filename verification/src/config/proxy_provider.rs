//! Proxy providers: where a provider's proxy list comes from, which of its
//! proxies are kept, and how its members are health-checked.

use vstd::prelude::*;
use crate::config::yaml::{
    field_str, get_key, lemma_tags_named_key_or_self, node_keys_distinct, node_map_of,
    pair_field_str, proxy_maps, spec_proxy_maps, spec_yaml_document, take_key_or_self,
    yaml_document, YamlNode,
};
use crate::text::{owned, string_append};

verus! {

// ---------------------------------------------------------------------------
// Raw settings
// ---------------------------------------------------------------------------

/// A provider's `health-check:` block as written.
#[derive(Debug, Clone, Default)]
pub struct RawHealthCheck {
    pub enable: Option<bool>,
    pub url: Option<String>,
    pub interval: Option<u64>,
    pub timeout: Option<u64>,
    pub lazy: Option<bool>,
}

/// A `proxy-providers:` entry as written.
#[derive(Debug, Clone, Default)]
pub struct RawProxyProvider {
    pub provider_type: String,
    pub path: Option<String>,
    pub url: Option<String>,
    pub filter: Option<String>,
    pub exclude_filter: Option<String>,
    pub exclude_type: Option<Vec<String>>,
    pub health_check: Option<RawHealthCheck>,
}

/// Health-check settings of a provider.
#[derive(Debug, Clone, PartialEq, Eq)]
pub struct HealthCheckConfig {
    pub url: String,
    pub interval: u64,
    pub timeout: u64,
    pub lazy: bool,
}

/// The health check: none when the block is absent or disabled; otherwise
/// the given values, defaulting to the gstatic 204 URL, 300 s, 5000 ms and
/// not lazy.
pub open spec fn is_health_check_for(raw: Option<RawHealthCheck>, r: Option<HealthCheckConfig>) -> bool {
    match raw {
        None => r is None,
        Some(hc) => if hc.enable == Some(false) {
            r is None
        } else {
            r matches Some(c) && c.url@ == (match hc.url {
                Some(u) => u@,
                None => "https://www.gstatic.com/generate_204"@,
            }) && c.interval == (match hc.interval {
                Some(i) => i,
                None => 300,
            }) && c.timeout == (match hc.timeout {
                Some(t) => t,
                None => 5000,
            }) && c.lazy == (hc.lazy == Some(true))
        },
    }
}

/// The health check a provider's `health-check:` block asks for.
pub fn build_health_check_config(raw: Option<&RawHealthCheck>) -> (r: Option<HealthCheckConfig>)
    ensures
        is_health_check_for(
            match raw {
                Some(h) => Some(*h),
                None => None,
            },
            r,
        ),
{
    let hc = match raw {
        Some(hc) => hc,
        None => {
            return None;
        },
    };
    let enabled = match hc.enable {
        Some(e) => e,
        None => true,
    };
    if !enabled {
        return None;
    }
    Some(
        HealthCheckConfig {
            url: match &hc.url {
                Some(u) => owned(u.as_str()),
                None => owned("https://www.gstatic.com/generate_204"),
            },
            interval: match hc.interval {
                Some(i) => i,
                None => 300,
            },
            timeout: match hc.timeout {
                Some(t) => t,
                None => 5000,
            },
            lazy: match hc.lazy {
                Some(l) => l,
                None => false,
            },
        },
    )
}

// ---------------------------------------------------------------------------
// Regular expressions and lower-casing (from the regex crate and std)
// ---------------------------------------------------------------------------

#[verifier::external_type_specification]
#[verifier::external_body]
pub struct ExRegex(regex::Regex);

/// What `regex::Regex::new` refuses `pattern` with (the error's text), or
/// `None` when it compiles.
pub uninterp spec fn spec_regex_error(pattern: Seq<char>) -> Option<Seq<char>>;

/// What `is_match` answers for the regex compiled from `pattern` on `s`.
pub uninterp spec fn spec_regex_matches(pattern: Seq<char>, s: Seq<char>) -> bool;

/// What `str::to_lowercase` gives for `s`.
pub uninterp spec fn spec_to_lowercase(s: Seq<char>) -> Seq<char>;

/// A compiled regular expression and the pattern it was compiled from.
pub struct CompiledRegex {
    re: regex::Regex,
    pattern: String,
}

impl CompiledRegex {
    /// The pattern this was compiled from.
    pub closed spec fn pattern(&self) -> Seq<char> {
        self.pattern@
    }

    /// `s` has a match (`regex::Regex::is_match`).
    #[verifier::external_body]
    pub(crate) fn is_match(&self, s: &str) -> (r: bool)
        ensures
            r == spec_regex_matches(self.pattern(), s@),
    {
        self.re.is_match(s)
    }
}

/// Compiles `pattern` (`regex::Regex::new`); a refusal carries the error's text.
#[verifier::external_body]
pub(crate) fn compile_regex(pattern: &str) -> (r: Result<CompiledRegex, String>)
    ensures
        match spec_regex_error(pattern@) {
            None => (r matches Ok(re) && re.pattern() == pattern@),
            Some(msg) => (r matches Err(e) && e@ == msg),
        },
{
    match regex::Regex::new(pattern) {
        Ok(re) => Ok(CompiledRegex { re, pattern: pattern.to_string() }),
        Err(e) => Err(e.to_string()),
    }
}

/// Unicode lower-casing (`str::to_lowercase`).
#[verifier::external_body]
pub(crate) fn to_lowercase(s: &str) -> (r: String)
    ensures
        r@ == spec_to_lowercase(s@),
{
    s.to_lowercase()
}

/// An optional pattern compiled; a refusal names the setting.
pub fn compile_opt_regex(pattern: &Option<String>, field: &str) -> (r: Result<Option<CompiledRegex>, String>)
    ensures
        match pattern {
            None => (r matches Ok(None)),
            Some(p) => match spec_regex_error(p@) {
                None => (r matches Ok(Some(re)) && re.pattern() == p@),
                Some(msg) => (r matches Err(e) && e@ == field@ + " regex error: "@ + msg),
            },
        },
{
    match pattern {
        Some(p) => match compile_regex(p.as_str()) {
            Ok(re) => Ok(Some(re)),
            Err(e) => {
                let mut msg = owned(field);
                string_append(&mut msg, " regex error: ");
                string_append(&mut msg, e.as_str());
                Err(msg)
            },
        },
        None => Ok(None),
    }
}

// ---------------------------------------------------------------------------
// Paths
// ---------------------------------------------------------------------------

/// A POSIX path is absolute when it starts at the root.
pub open spec fn is_absolute_path(p: Seq<char>) -> bool {
    p.len() > 0 && p[0] == '/'
}

/// `base` joined with `p` by POSIX rules (`Path::join`): an absolute `p`
/// replaces `base`; otherwise a `/` separates them unless `base` is empty
/// or already ends with one.
pub open spec fn join_path(base: Seq<char>, p: Seq<char>) -> Seq<char> {
    if is_absolute_path(p) {
        p
    } else if base.len() > 0 && base.last() != '/' {
        base + "/"@ + p
    } else {
        base + p
    }
}

pub fn path_is_absolute(p: &str) -> (r: bool)
    ensures
        r == is_absolute_path(p@),
{
    let cs = crate::text::chars_of(p);
    cs.len() > 0 && cs[0] == '/'
}

pub fn path_join(base: &str, p: &str) -> (r: String)
    ensures
        r@ == join_path(base@, p@),
{
    if path_is_absolute(p) {
        return owned(p);
    }
    let bs = crate::text::chars_of(base);
    let mut out = owned(base);
    if bs.len() > 0 && bs[bs.len() - 1] != '/' {
        string_append(&mut out, "/");
    }
    string_append(&mut out, p);
    out
}

/// A configured path: relative ones are taken inside the cache directory
/// when there is one.
pub open spec fn provider_path(p: Seq<char>, cache_dir: Option<Seq<char>>) -> Seq<char> {
    match cache_dir {
        Some(dir) => if is_absolute_path(p) {
            p
        } else {
            join_path(dir, p)
        },
        None => p,
    }
}

fn resolve_path(p: &str, cache_dir: Option<&str>) -> (r: String)
    ensures
        r@ == provider_path(
            p@,
            match cache_dir {
                Some(d) => Some(d@),
                None => None,
            },
        ),
{
    match cache_dir {
        Some(dir) => if path_is_absolute(p) {
            owned(p)
        } else {
            path_join(dir, p)
        },
        None => owned(p),
    }
}

// ---------------------------------------------------------------------------
// Providers
// ---------------------------------------------------------------------------

/// Where a provider's proxy list is read from.
#[derive(Debug, Clone, PartialEq, Eq)]
pub enum Vehicle {
    /// A local file.
    File(String),
    /// An HTTP URL, with the file it is cached in.
    Http { url: String, cache_path: String },
}

pub enum VehicleView {
    File(Seq<char>),
    Http { url: Seq<char>, cache_path: Seq<char> },
}

impl View for Vehicle {
    type V = VehicleView;

    open spec fn view(&self) -> VehicleView {
        match self {
            Vehicle::File(p) => VehicleView::File(p@),
            Vehicle::Http { url, cache_path } => VehicleView::Http { url: url@, cache_path: cache_path@ },
        }
    }
}

/// The optional text of an optional string.
pub open spec fn opt_view(o: Option<String>) -> Option<Seq<char>> {
    match o {
        Some(s) => Some(s@),
        None => None,
    }
}

/// Where a provider reads from, or why its settings are refused.
pub open spec fn spec_vehicle(name: Seq<char>, raw: RawProxyProvider, cache_dir: Option<Seq<char>>) -> Result<
    (VehicleView, Seq<char>),
    Seq<char>,
> {
    if raw.provider_type@ == "file"@ {
        match raw.path {
            None => Err("file proxy-provider requires 'path'"@),
            Some(p) => Ok((VehicleView::File(provider_path(p@, cache_dir)), "File"@)),
        }
    } else if raw.provider_type@ == "http"@ {
        match raw.url {
            None => Err("http proxy-provider requires 'url'"@),
            Some(u) => Ok((
                VehicleView::Http {
                    url: u@,
                    cache_path: match raw.path {
                        Some(p) => provider_path(p@, cache_dir),
                        None => join_path(
                            match cache_dir {
                                Some(d) => d,
                                None => "."@,
                            },
                            "provider_"@ + name + ".yaml"@,
                        ),
                    },
                },
                "HTTP"@,
            )),
        }
    } else {
        Err("unknown proxy-provider type '"@ + raw.provider_type@ + "'"@)
    }
}

/// A proxy provider: its name, source, member filters and health check.
pub struct ProxyProvider {
    pub name: String,
    pub vehicle_type: &'static str,
    vehicle: Vehicle,
    filter: Option<CompiledRegex>,
    exclude_filter: Option<CompiledRegex>,
    exclude_type: Vec<String>,
    pub health_check: Option<HealthCheckConfig>,
}

/// The pattern of an optional compiled regex.
pub open spec fn opt_pattern(o: Option<CompiledRegex>) -> Option<Seq<char>> {
    match o {
        Some(re) => Some(re.pattern()),
        None => None,
    }
}

/// A proxy called `name` of kind `kind` is kept: it matches the filter (if
/// any), does not match the exclude filter (if any), and its lower-cased
/// kind is not excluded.
pub open spec fn spec_admits(
    filter: Option<Seq<char>>,
    exclude_filter: Option<Seq<char>>,
    exclude_type: Seq<Seq<char>>,
    name: Seq<char>,
    kind: Seq<char>,
) -> bool {
    &&& (filter matches Some(f) ==> spec_regex_matches(f, name))
    &&& (exclude_filter matches Some(x) ==> !spec_regex_matches(x, name))
    &&& !exclude_type.contains(spec_to_lowercase(kind))
}

impl ProxyProvider {
    pub closed spec fn spec_name(&self) -> Seq<char> {
        self.name@
    }

    pub closed spec fn spec_vehicle_type(&self) -> Seq<char> {
        self.vehicle_type@
    }

    pub closed spec fn spec_health_check(&self) -> Option<HealthCheckConfig> {
        self.health_check
    }

    pub closed spec fn spec_vehicle(&self) -> VehicleView {
        self.vehicle@
    }

    pub closed spec fn spec_filter(&self) -> Option<Seq<char>> {
        opt_pattern(self.filter)
    }

    pub closed spec fn spec_exclude_filter(&self) -> Option<Seq<char>> {
        opt_pattern(self.exclude_filter)
    }

    /// The excluded proxy kinds, lower-cased.
    pub closed spec fn spec_exclude_type(&self) -> Seq<Seq<char>> {
        self.exclude_type@.map_values(|s: String| s@)
    }

    /// Builds a provider from its settings; `cache_dir` holds relative paths
    /// and the HTTP cache file.
    pub fn new(name: &str, raw: &RawProxyProvider, cache_dir: Option<&str>) -> (r: Result<ProxyProvider, String>)
        ensures
            ({
                let dir = match cache_dir {
                    Some(d) => Some(d@),
                    None => None,
                };
                match spec_vehicle(name@, *raw, dir) {
                    Err(msg) => (r matches Err(e) && e@ == msg),
                    Ok((vehicle, vtype)) => match (
                        raw.filter,
                        raw.filter matches Some(f) && spec_regex_error(f@) is Some,
                    ) {
                        (Some(f), true) => (r matches Err(e) && e@ == "filter"@ + " regex error: "@
                            + spec_regex_error(f@)->0),
                        _ => match (
                            raw.exclude_filter,
                            raw.exclude_filter matches Some(x) && spec_regex_error(x@) is Some,
                        ) {
                            (Some(x), true) => (r matches Err(e) && e@ == "exclude-filter"@
                                + " regex error: "@ + spec_regex_error(x@)->0),
                            _ => (r matches Ok(p) && p.spec_name() == name@ && p.spec_vehicle_type() == vtype
                                && p.spec_vehicle() == vehicle && p.spec_filter() == opt_view(
                                raw.filter,
                            ) && p.spec_exclude_filter() == opt_view(raw.exclude_filter)
                                && p.spec_exclude_type() == (match raw.exclude_type {
                                Some(ts) => ts@.map_values(|t: String| spec_to_lowercase(t@)),
                                None => Seq::empty(),
                            }) && is_health_check_for(raw.health_check, p.spec_health_check())),
                        },
                    },
                }
            }),
    {
        let is_file = crate::text::str_eq(raw.provider_type.as_str(), "file");
        let is_http = crate::text::str_eq(raw.provider_type.as_str(), "http");
        let (vehicle, vehicle_type): (Vehicle, &'static str) = if is_file {
            match &raw.path {
                None => {
                    return Err(owned("file proxy-provider requires 'path'"));
                },
                Some(p) => (Vehicle::File(resolve_path(p.as_str(), cache_dir)), "File"),
            }
        } else if is_http {
            match &raw.url {
                None => {
                    return Err(owned("http proxy-provider requires 'url'"));
                },
                Some(u) => {
                    let cache_path = match &raw.path {
                        Some(p) => resolve_path(p.as_str(), cache_dir),
                        None => {
                            let dir: &str = match cache_dir {
                                Some(d) => d,
                                None => ".",
                            };
                            let mut file = owned("provider_");
                            string_append(&mut file, name);
                            string_append(&mut file, ".yaml");
                            path_join(dir, file.as_str())
                        },
                    };
                    (Vehicle::Http { url: owned(u.as_str()), cache_path }, "HTTP")
                },
            }
        } else {
            let mut msg = owned("unknown proxy-provider type '");
            string_append(&mut msg, raw.provider_type.as_str());
            string_append(&mut msg, "'");
            return Err(msg);
        };
        let filter = match compile_opt_regex(&raw.filter, "filter") {
            Ok(f) => f,
            Err(e) => {
                return Err(e);
            },
        };
        let exclude_filter = match compile_opt_regex(&raw.exclude_filter, "exclude-filter") {
            Ok(f) => f,
            Err(e) => {
                return Err(e);
            },
        };
        let mut exclude_type: Vec<String> = Vec::new();
        match &raw.exclude_type {
            Some(ts) => {
                let mut i: usize = 0;
                while i < ts.len()
                    invariant
                        i <= ts@.len(),
                        exclude_type@.map_values(|s: String| s@) == ts@.take(i as int).map_values(
                            |t: String| spec_to_lowercase(t@),
                        ),
                    decreases ts.len() - i,
                {
                    let ghost before = exclude_type@;
                    let low = to_lowercase(ts[i].as_str());
                    exclude_type.push(low);
                    proof {
                        assert(exclude_type@ == before.push(low));
                        assert(exclude_type@.map_values(|s: String| s@) =~= before.map_values(
                            |s: String| s@,
                        ).push(low@));
                        assert(ts@.take(i as int + 1).map_values(|t: String| spec_to_lowercase(t@))
                            =~= ts@.take(i as int).map_values(|t: String| spec_to_lowercase(t@)).push(
                            spec_to_lowercase(ts@[i as int]@),
                        ));
                    }
                    i = i + 1;
                }
                assert(ts@.take(ts@.len() as int) =~= ts@);
            },
            None => {},
        }
        let health_check = build_health_check_config(raw.health_check.as_ref());
        Ok(
            ProxyProvider {
                name: owned(name),
                vehicle_type,
                vehicle,
                filter,
                exclude_filter,
                exclude_type,
                health_check,
            },
        )
    }

    /// Where the proxy list is read from.
    pub fn vehicle(&self) -> (r: &Vehicle)
        ensures
            r@ == self.spec_vehicle(),
    {
        &self.vehicle
    }

    /// A proxy called `name` of kind `kind` is kept.
    pub fn admits(&self, name: &str, kind: &str) -> (r: bool)
        ensures
            r == spec_admits(
                self.spec_filter(),
                self.spec_exclude_filter(),
                self.spec_exclude_type(),
                name@,
                kind@,
            ),
    {
        if let Some(re) = &self.filter {
            if !re.is_match(name) {
                return false;
            }
        }
        if let Some(re) = &self.exclude_filter {
            if re.is_match(name) {
                return false;
            }
        }
        let low = to_lowercase(kind);
        let mut i: usize = 0;
        while i < self.exclude_type.len()
            invariant
                i <= self.exclude_type@.len(),
                low@ == spec_to_lowercase(kind@),
                forall|j: int| 0 <= j < i ==> (#[trigger] self.exclude_type@[j])@ != low@,
            decreases self.exclude_type.len() - i,
        {
            if crate::text::str_eq(self.exclude_type[i].as_str(), low.as_str()) {
                assert(self.spec_exclude_type()[i as int] == low@);
                assert(self.spec_exclude_type().contains(low@));
                return false;
            }
            i = i + 1;
        }
        assert(!self.spec_exclude_type().contains(low@)) by {
            if self.spec_exclude_type().contains(low@) {
                let j = choose|j: int| 0 <= j < self.spec_exclude_type().len() && self.spec_exclude_type()[j] == low@;
                assert(self.exclude_type@[j]@ == low@);
            }
        }
        true
    }

    /// The indices of the entries (name and kind of each proxy in the
    /// fetched list) that are kept, in order.
    pub fn admitted(&self, entries: &Vec<(String, String)>) -> (r: Vec<usize>)
        ensures
            r@ == admitted_upto(
                self.spec_filter(),
                self.spec_exclude_filter(),
                self.spec_exclude_type(),
                entries@,
                entries@.len() as int,
            ),
    {
        let mut out: Vec<usize> = Vec::new();
        let mut i: usize = 0;
        while i < entries.len()
            invariant
                i <= entries@.len(),
                out@ == admitted_upto(
                    self.spec_filter(),
                    self.spec_exclude_filter(),
                    self.spec_exclude_type(),
                    entries@,
                    i as int,
                ),
            decreases entries.len() - i,
        {
            if self.admits(entries[i].0.as_str(), entries[i].1.as_str()) {
                out.push(i);
            }
            i = i + 1;
        }
        out
    }
}

/// The indices of the first `k` entries that are kept, in order.
pub open spec fn admitted_upto(
    filter: Option<Seq<char>>,
    exclude_filter: Option<Seq<char>>,
    exclude_type: Seq<Seq<char>>,
    entries: Seq<(String, String)>,
    k: int,
) -> Seq<usize>
    decreases k,
{
    if k <= 0 {
        Seq::empty()
    } else {
        let prev = admitted_upto(filter, exclude_filter, exclude_type, entries, k - 1);
        if spec_admits(filter, exclude_filter, exclude_type, entries[k - 1].0@, entries[k - 1].1@) {
            prev.push((k - 1) as usize)
        } else {
            prev
        }
    }
}

/// The list of proxy maps that a provider's content holds: the `proxies`
/// entry of the document, or the document itself when it has none, read as
/// a list of maps; nothing when the content is no YAML or no such list.
pub open spec fn provider_proxy_list(content: Seq<char>) -> Seq<Map<Seq<char>, YamlNode>> {
    match spec_yaml_document(content) {
        Err(_) => Seq::empty(),
        Ok(doc) => match spec_proxy_maps(
            match get_key(doc, "proxies"@) {
                Some(v) => v,
                None => doc,
            },
        ) {
            Some(ms) => ms,
            None => Seq::empty(),
        },
    }
}

/// The maps whose `name` and `type` fields pass the provider's filters, in
/// order.
pub open spec fn kept_maps(
    filter: Option<Seq<char>>,
    exclude_filter: Option<Seq<char>>,
    exclude_type: Seq<Seq<char>>,
    ms: Seq<Map<Seq<char>, YamlNode>>,
) -> Seq<Map<Seq<char>, YamlNode>>
    decreases ms.len(),
{
    if ms.len() == 0 {
        Seq::empty()
    } else {
        let prev = kept_maps(filter, exclude_filter, exclude_type, ms.drop_last());
        if spec_admits(
            filter,
            exclude_filter,
            exclude_type,
            field_str(ms.last(), "name"@),
            field_str(ms.last(), "type"@),
        ) {
            prev.push(ms.last())
        } else {
            prev
        }
    }
}

impl ProxyProvider {
    /// The proxies of fetched content that the provider keeps, each as its
    /// fields (keys distinct), in the order of the list: content that is no
    /// YAML, or holds no list of maps, gives none.
    pub fn admitted_proxy_maps(&self, content: &str) -> (r: Vec<Vec<(String, YamlNode)>>)
        ensures
            ({
                let kept = kept_maps(
                    self.spec_filter(),
                    self.spec_exclude_filter(),
                    self.spec_exclude_type(),
                    provider_proxy_list(content@),
                );
                &&& r@.len() == kept.len()
                &&& forall|i: int|
                    0 <= i < r@.len() ==> node_keys_distinct(#[trigger] r@[i]@) && node_map_of(
                        r@[i]@,
                    ) == kept[i]
            }),
    {
        let doc = match yaml_document(content) {
            Ok(d) => d,
            Err(_) => return Vec::new(),
        };
        proof {
            lemma_tags_named_key_or_self(doc, "proxies"@);
        }
        let list = take_key_or_self(doc, "proxies");
        let maps = match proxy_maps(list) {
            Some(v) => v,
            None => return Vec::new(),
        };
        let ghost ms = spec_proxy_maps(list)->0;
        let ghost all = maps@;
        let ghost f = self.spec_filter();
        let ghost xf = self.spec_exclude_filter();
        let ghost xt = self.spec_exclude_type();
        let mut out: Vec<Vec<(String, YamlNode)>> = Vec::new();
        for p in it: maps.into_iter()
            invariant
                it.seq() == all,
                all.len() == ms.len(),
                forall|i: int|
                    0 <= i < all.len() ==> node_keys_distinct(#[trigger] all[i]@) && node_map_of(
                        all[i]@,
                    ) == ms[i],
                f == self.spec_filter(),
                xf == self.spec_exclude_filter(),
                xt == self.spec_exclude_type(),
                out@.len() == kept_maps(f, xf, xt, ms.take(it.index())).len(),
                forall|i: int|
                    0 <= i < out@.len() ==> node_keys_distinct(#[trigger] out@[i]@) && node_map_of(
                        out@[i]@,
                    ) == kept_maps(f, xf, xt, ms.take(it.index()))[i],
        {
            let ghost k = it.index();
            proof {
                assert(all[k] == p);
                assert(ms.take(k + 1).drop_last() =~= ms.take(k));
                assert(ms.take(k + 1).last() == ms[k]);
            }
            let name = pair_field_str(&p, "name");
            let kind = pair_field_str(&p, "type");
            if self.admits(name.as_str(), kind.as_str()) {
                out.push(p);
            }
        }
        proof {
            assert(ms.take(ms.len() as int) =~= ms);
        }
        out
    }
}

} // verus!
