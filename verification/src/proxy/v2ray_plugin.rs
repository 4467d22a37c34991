//! Options of the `v2ray-plugin` SIP003 client transport.

use vstd::prelude::*;
use crate::common::error::MeowError;
use crate::string_map::StringMap;
use crate::text::{
    chars_eq, chars_eq_ignore_ascii_case, chars_of, eq_ignore_ascii_case, find_char, is_white_space,
    first_index, owned, split_char, string_append, string_of, trim, trim_bounds,
};

verus! {

/// Transport mode; only WebSocket exists.
#[derive(Debug, Clone, PartialEq, Eq, Structural)]
pub enum Mode {
    Websocket,
}

/// Parsed v2ray-plugin client options.
pub struct V2rayPluginConfig {
    pub mode: Mode,
    pub tls: bool,
    /// Host header and TLS SNI; empty means the server address.
    pub host: String,
    /// WebSocket upgrade path.
    pub path: String,
    pub headers: StringMap,
    pub skip_cert_verify: bool,
    /// Parsed but not acted on.
    pub mux: bool,
}

/// The options as values.
pub struct OptsView {
    pub mode: Mode,
    pub tls: bool,
    pub host: Seq<char>,
    pub path: Seq<char>,
    pub headers: Map<Seq<char>, Seq<char>>,
    pub skip_cert_verify: bool,
    pub mux: bool,
}

impl View for V2rayPluginConfig {
    type V = OptsView;

    open spec fn view(&self) -> OptsView {
        OptsView {
            mode: self.mode,
            tls: self.tls,
            host: self.host@,
            path: self.path@,
            headers: self.headers@,
            skip_cert_verify: self.skip_cert_verify,
            mux: self.mux,
        }
    }
}

/// Options when nothing is given: plain WebSocket on path `/`.
pub open spec fn default_opts() -> OptsView {
    OptsView {
        mode: Mode::Websocket,
        tls: false,
        host: Seq::empty(),
        path: "/"@,
        headers: Map::empty(),
        skip_cert_verify: false,
        mux: false,
    }
}

impl V2rayPluginConfig {
    /// The options when nothing is given.
    pub fn default() -> (r: Self)
        ensures
            r@ == default_opts(),
    {
        V2rayPluginConfig {
            mode: Mode::Websocket,
            tls: false,
            host: String::new(),
            path: owned("/"),
            headers: StringMap::new(),
            skip_cert_verify: false,
            mux: false,
        }
    }
}

/// A truthy option value: `1`, `true`, `yes` or `on`, regardless of ASCII case.
pub open spec fn spec_parse_bool(v: Seq<char>) -> bool {
    eq_ignore_ascii_case(v, "1"@) || eq_ignore_ascii_case(v, "true"@) || eq_ignore_ascii_case(
        v,
        "yes"@,
    ) || eq_ignore_ascii_case(v, "on"@)
}

/// Key and value of an option token; a bare key means `key=true`.
pub open spec fn key_value(t: Seq<char>) -> (Seq<char>, Seq<char>) {
    match first_index(t, '=') {
        Some(i) => (trim(t.take(i)), trim(t.skip(i + 1))),
        None => (t, "true"@),
    }
}

pub open spec fn unsupported_mode_message(v: Seq<char>) -> Seq<char> {
    "v2ray-plugin: unsupported mode '"@ + v + "' (only 'websocket' is supported)"@
}

/// Effect of one non-empty option token; unknown keys and malformed headers
/// are ignored.
pub open spec fn apply_opt(cfg: OptsView, t: Seq<char>) -> Result<OptsView, Seq<char>> {
    let (k, v) = key_value(t);
    if k == "mode"@ {
        if eq_ignore_ascii_case(v, "websocket"@) || eq_ignore_ascii_case(v, "ws"@) {
            Ok(cfg)
        } else {
            Err(unsupported_mode_message(v))
        }
    } else if k == "tls"@ {
        Ok(OptsView { tls: spec_parse_bool(v), ..cfg })
    } else if k == "host"@ {
        Ok(OptsView { host: v, ..cfg })
    } else if k == "path"@ {
        Ok(OptsView { path: v, ..cfg })
    } else if k == "mux"@ {
        Ok(OptsView { mux: spec_parse_bool(v), ..cfg })
    } else if k == "skip-cert-verify"@ {
        Ok(OptsView { skip_cert_verify: spec_parse_bool(v), ..cfg })
    } else if k == "header"@ {
        match first_index(v, ':') {
            Some(i) => Ok(
                OptsView { headers: cfg.headers.insert(trim(v.take(i)), trim(v.skip(i + 1))), ..cfg },
            ),
            None => Ok(cfg),
        }
    } else {
        Ok(cfg)
    }
}

/// Effect of the pieces of an options string, in order; blank pieces are skipped
/// and the first error stops the reading.
pub open spec fn apply_opts(cfg: OptsView, pieces: Seq<Seq<char>>) -> Result<OptsView, Seq<char>>
    decreases pieces.len(),
{
    if pieces.len() == 0 {
        Ok(cfg)
    } else {
        let t = trim(pieces[0]);
        if t.len() == 0 {
            apply_opts(cfg, pieces.drop_first())
        } else {
            match apply_opt(cfg, t) {
                Ok(c) => apply_opts(c, pieces.drop_first()),
                Err(e) => Err(e),
            }
        }
    }
}

/// Reading of a SIP003 options string `k=v;k=v;...`.
pub open spec fn spec_parse_opts(s: Seq<char>) -> Result<OptsView, Seq<char>> {
    apply_opts(default_opts(), split_char(s, ';'))
}

/// The key of an options piece, after trimming.
pub open spec fn piece_key(p: Seq<char>) -> Seq<char> {
    key_value(trim(p)).0
}

/// Keys whose token sets one field outright.
pub open spec fn is_setter_key(k: Seq<char>) -> bool {
    k == "tls"@ || k == "host"@ || k == "path"@ || k == "mux"@ || k == "skip-cert-verify"@
}

/// Keys the options reader acts on.
pub open spec fn is_known_key(k: Seq<char>) -> bool {
    k == "mode"@ || k == "header"@ || is_setter_key(k)
}

/// Reading `p1` then `p2` is reading `p1 + p2`; an error in `p1` stops it.
pub proof fn lemma_apply_opts_append(cfg: OptsView, p1: Seq<Seq<char>>, p2: Seq<Seq<char>>)
    ensures
        apply_opts(cfg, p1 + p2) == match apply_opts(cfg, p1) {
            Ok(c) => apply_opts(c, p2),
            Err(e) => Err(e),
        },
    decreases p1.len(),
{
    if p1.len() > 0 {
        assert((p1 + p2)[0] == p1[0]);
        assert((p1 + p2).drop_first() =~= p1.drop_first() + p2);
        let t = trim(p1[0]);
        if t.len() == 0 {
            lemma_apply_opts_append(cfg, p1.drop_first(), p2);
        } else {
            match apply_opt(cfg, t) {
                Ok(c) => lemma_apply_opts_append(c, p1.drop_first(), p2),
                Err(_) => {},
            }
        }
    } else {
        assert(p1 + p2 =~= p2);
    }
}

/// A piece whose key the reader does not know changes nothing, wherever it
/// stands.
pub proof fn lemma_unknown_key_ignored(cfg: OptsView, p1: Seq<Seq<char>>, t: Seq<char>, p2: Seq<Seq<char>>)
    requires
        !is_known_key(piece_key(t)),
    ensures
        apply_opts(cfg, p1 + seq![t] + p2) == apply_opts(cfg, p1 + p2),
{
    assert(p1 + seq![t] + p2 =~= p1 + (seq![t] + p2));
    lemma_apply_opts_append(cfg, p1, seq![t] + p2);
    lemma_apply_opts_append(cfg, p1, p2);
    assert forall|c: OptsView| #[trigger] apply_opts(c, seq![t] + p2) == apply_opts(c, p2) by {
        assert((seq![t] + p2)[0] == t);
        assert((seq![t] + p2).drop_first() =~= p2);
    }
}

/// A token with a setter key always succeeds, and the field it sets depends
/// on nothing else: a later token with the same key overrides it, and a
/// token with another key commutes with it.
proof fn lemma_setter_token(c: OptsView, t1: Seq<char>, t2: Seq<char>)
    requires
        is_setter_key(key_value(t1).0),
    ensures
        apply_opt(c, t1) is Ok,
        key_value(t2).0 == key_value(t1).0 ==> apply_opt(apply_opt(c, t1)->Ok_0, t2) == apply_opt(c, t2),
        key_value(t2).0 != key_value(t1).0 ==> apply_opt(apply_opt(c, t1)->Ok_0, t2) == match apply_opt(c, t2) {
            Ok(c2) => apply_opt(c2, t1),
            Err(e) => Err(e),
        },
{
    reveal_strlit("mode");
    reveal_strlit("tls");
    reveal_strlit("host");
    reveal_strlit("path");
    reveal_strlit("mux");
    reveal_strlit("skip-cert-verify");
    reveal_strlit("header");
    assert("tls"@.len() == 3 && "mode"@.len() == 4);
    assert(key_value(t1).0 != "mode"@);
}

/// A piece with a setter key is not blank.
proof fn lemma_setter_piece_not_blank(t: Seq<char>)
    requires
        is_setter_key(piece_key(t)),
    ensures
        trim(t).len() > 0,
{
    reveal_strlit("tls");
    reveal_strlit("host");
    reveal_strlit("path");
    reveal_strlit("mux");
    reveal_strlit("skip-cert-verify");
    if trim(t).len() == 0 {
        assert(first_index(trim(t), '=') is None);
        assert(piece_key(t).len() == 0);
    }
}

/// Of two pieces with the same setter key, the last wins: the first can be
/// dropped when no piece between them has that key.
pub proof fn lemma_last_key_wins(
    cfg: OptsView,
    p1: Seq<Seq<char>>,
    t1: Seq<char>,
    mid: Seq<Seq<char>>,
    t2: Seq<char>,
    p2: Seq<Seq<char>>,
)
    requires
        is_setter_key(piece_key(t1)),
        piece_key(t2) == piece_key(t1),
        forall|i: int| 0 <= i < mid.len() ==> piece_key(#[trigger] mid[i]) != piece_key(t1),
    ensures
        apply_opts(cfg, p1 + seq![t1] + mid + seq![t2] + p2) == apply_opts(cfg, p1 + mid + seq![t2] + p2),
{
    let rest = mid + seq![t2] + p2;
    assert(p1 + seq![t1] + mid + seq![t2] + p2 =~= p1 + (seq![t1] + rest));
    assert(p1 + mid + seq![t2] + p2 =~= p1 + rest);
    lemma_apply_opts_append(cfg, p1, seq![t1] + rest);
    lemma_apply_opts_append(cfg, p1, rest);
    assert forall|c: OptsView| #[trigger] apply_opts(c, seq![t1] + rest) == apply_opts(c, rest) by {
        lemma_first_setter_dropped(c, t1, mid, t2, p2);
    }
}

proof fn lemma_first_setter_dropped(c: OptsView, t1: Seq<char>, mid: Seq<Seq<char>>, t2: Seq<char>, p2: Seq<Seq<char>>)
    requires
        is_setter_key(piece_key(t1)),
        piece_key(t2) == piece_key(t1),
        forall|i: int| 0 <= i < mid.len() ==> piece_key(#[trigger] mid[i]) != piece_key(t1),
    ensures
        apply_opts(c, seq![t1] + (mid + seq![t2] + p2)) == apply_opts(c, mid + seq![t2] + p2),
    decreases mid.len(),
{
    let rest = mid + seq![t2] + p2;
    let tt1 = trim(t1);
    lemma_setter_piece_not_blank(t1);
    lemma_setter_piece_not_blank(t2);
    assert((seq![t1] + rest)[0] == t1);
    assert((seq![t1] + rest).drop_first() =~= rest);
    if mid.len() == 0 {
        assert(rest =~= seq![t2] + p2);
        assert(rest[0] == t2);
        assert(rest.drop_first() =~= p2);
        lemma_setter_token(c, tt1, trim(t2));
        let c1 = apply_opt(c, tt1)->Ok_0;
        assert(apply_opts(c, seq![t1] + rest) == apply_opts(c1, rest));
        assert(apply_opts(c1, rest) == match apply_opt(c1, trim(t2)) {
            Ok(x) => apply_opts(x, p2),
            Err(e) => Err(e),
        });
        assert(apply_opts(c, rest) == match apply_opt(c, trim(t2)) {
            Ok(x) => apply_opts(x, p2),
            Err(e) => Err(e),
        });
        assert(apply_opts(c, seq![t1] + rest) == apply_opts(c, rest));
    } else {
        let m = mid[0];
        let mid2 = mid.drop_first();
        assert(rest[0] == m);
        assert(rest.drop_first() =~= mid2 + seq![t2] + p2);
        assert forall|i: int| 0 <= i < mid2.len() implies piece_key(#[trigger] mid2[i]) != piece_key(t1) by {
            assert(mid2[i] == mid[i + 1]);
        }
        assert(piece_key(mid[0]) != piece_key(t1));
        lemma_setter_token(c, tt1, trim(m));
        let c1 = apply_opt(c, tt1)->Ok_0;
        if trim(m).len() == 0 {
            lemma_first_setter_dropped(c, t1, mid2, t2, p2);
            assert(apply_opts(c, seq![t1] + (mid2 + seq![t2] + p2)) == apply_opts(c1, mid2 + seq![t2] + p2)) by {
                assert((seq![t1] + (mid2 + seq![t2] + p2))[0] == t1);
                assert((seq![t1] + (mid2 + seq![t2] + p2)).drop_first() =~= mid2 + seq![t2] + p2);
            }
            assert(apply_opts(c1, rest) == apply_opts(c1, mid2 + seq![t2] + p2));
            assert(apply_opts(c, rest) == apply_opts(c, mid2 + seq![t2] + p2));
            assert(apply_opts(c, seq![t1] + rest) == apply_opts(c, rest));
        } else {
            match apply_opt(c, trim(m)) {
                Ok(cm) => {
                    lemma_setter_token(cm, tt1, tt1);
                    lemma_first_setter_dropped(cm, t1, mid2, t2, p2);
                    assert((seq![t1] + (mid2 + seq![t2] + p2))[0] == t1);
                    assert((seq![t1] + (mid2 + seq![t2] + p2)).drop_first() =~= mid2 + seq![t2] + p2);
                    assert(apply_opts(c, seq![t1] + rest) == apply_opts(c, rest));
                },
                Err(_) => {},
            }
        }
    }
}

/// Text with no white space at either end is its own trim.
proof fn lemma_trim_unpadded(s: Seq<char>)
    requires
        s.len() == 0 || (!is_white_space(s[0]) && !is_white_space(s.last())),
    ensures
        trim(s) == s,
{
}

/// An option takes its value: reading `tls=v`, `mux=v` or
/// `skip-cert-verify=v` sets that flag to whether `v` is truthy (`1`,
/// `true`, `yes`, `on`), and `host=v` or `path=v` sets that field to `v`;
/// every other option keeps its default. So `skip-cert-verify=false`
/// leaves certificate checks on.
pub proof fn lemma_flag_follows_value(key: Seq<char>, v: Seq<char>)
    requires
        is_setter_key(key),
        forall|i: int| 0 <= i < v.len() ==> v[i] != ';',
        v.len() == 0 || (!is_white_space(v[0]) && !is_white_space(v.last())),
    ensures
        key == "tls"@ ==> spec_parse_opts(key + "="@ + v) == Ok::<OptsView, Seq<char>>(
            OptsView { tls: spec_parse_bool(v), ..default_opts() },
        ),
        key == "mux"@ ==> spec_parse_opts(key + "="@ + v) == Ok::<OptsView, Seq<char>>(
            OptsView { mux: spec_parse_bool(v), ..default_opts() },
        ),
        key == "skip-cert-verify"@ ==> spec_parse_opts(key + "="@ + v) == Ok::<OptsView, Seq<char>>(
            OptsView { skip_cert_verify: spec_parse_bool(v), ..default_opts() },
        ),
        key == "host"@ ==> spec_parse_opts(key + "="@ + v) == Ok::<OptsView, Seq<char>>(
            OptsView { host: v, ..default_opts() },
        ),
        key == "path"@ ==> spec_parse_opts(key + "="@ + v) == Ok::<OptsView, Seq<char>>(
            OptsView { path: v, ..default_opts() },
        ),
{
    reveal_strlit("mode");
    reveal_strlit("tls");
    reveal_strlit("host");
    reveal_strlit("path");
    reveal_strlit("mux");
    reveal_strlit("skip-cert-verify");
    reveal_strlit("header");
    reveal_strlit("=");
    let t = key + "="@ + v;
    let n = key.len() as int;
    assert(forall|i: int| 0 <= i < n ==> key[i] != '=' && key[i] != ';' && !is_white_space(#[trigger] key[i]));
    assert(t.len() == n + 1 + v.len());
    assert forall|i: int| 0 <= i < t.len() implies t[i] != ';' by {
        if i < n {
            assert(t[i] == key[i]);
        } else if i == n {
            assert(t[i] == '=');
        } else {
            assert(t[i] == v[i - n - 1]);
        }
    }
    crate::text::lemma_first_index(t, ';', t.len() as int);
    assert(split_char(t, ';') == seq![t]);
    assert(t[0] == key[0]);
    if v.len() > 0 {
        assert(t.last() == v.last());
    } else {
        assert(t.last() == '=');
    }
    lemma_trim_unpadded(t);
    assert forall|j: int| 0 <= j < n implies t[j] != '=' by {
        assert(t[j] == key[j]);
    }
    assert(t[n] == '=');
    crate::text::lemma_first_index(t, '=', n);
    assert(t.take(n) =~= key);
    assert(t.skip(n + 1) =~= v);
    lemma_trim_unpadded(key);
    lemma_trim_unpadded(v);
    assert(key_value(t) == (key, v));
    assert(seq![t][0] == t);
    assert(seq![t].drop_first() =~= Seq::<Seq<char>>::empty());
    assert(key != "mode"@ && key != "header"@) by {
        assert("mode"@[0] != "tls"@[0] && "mode"@[0] != "skip-cert-verify"@[0]);
        assert("header"@.len() != "tls"@.len() && "header"@[0] != "skip-cert-verify"@[0]);
        assert("mode"@[0] != "host"@[0] && "mode"@[0] != "path"@[0]);
        assert("header"@[0] != "host"@[0] || "header"@[1] != "host"@[1]);
        assert("header"@.len() != "path"@.len());
    }
    assert("host"@[0] != "path"@[0]);
    assert("tls"@[0] != "mux"@[0] && "tls"@[0] != "host"@[0] && "tls"@[0] != "path"@[0]);
    assert("mux"@[0] != "host"@[0] && "mux"@[0] != "path"@[0]);
    assert("skip-cert-verify"@[0] != "tls"@[0] && "skip-cert-verify"@[0] != "mux"@[0]);
    assert("skip-cert-verify"@[0] != "host"@[0] && "skip-cert-verify"@[0] != "path"@[0]);
    let c = apply_opt(default_opts(), t);
    assert(apply_opts(default_opts(), seq![t]) == match c {
        Ok(c) => apply_opts(c, Seq::<Seq<char>>::empty()),
        Err(e) => Err(e),
    });
}

/// `1`, `true`, `yes` or `on`, regardless of ASCII case.
pub fn parse_bool(s: &str) -> (r: bool)
    ensures
        r == spec_parse_bool(s@),
{
    let cs = chars_of(s);
    assert(cs@.subrange(0, cs@.len() as int) =~= s@);
    chars_eq_ignore_ascii_case(&cs, 0, cs.len(), "1") || chars_eq_ignore_ascii_case(
        &cs,
        0,
        cs.len(),
        "true",
    ) || chars_eq_ignore_ascii_case(&cs, 0, cs.len(), "yes") || chars_eq_ignore_ascii_case(
        &cs,
        0,
        cs.len(),
        "on",
    )
}

/// Applies one non-empty token `cs[lo..hi]` to `cfg`.
fn apply_token(cfg: &mut V2rayPluginConfig, cs: &[char], lo: usize, hi: usize) -> (r: Result<
    (),
    String,
>)
    requires
        lo < hi <= cs.len(),
    ensures
        match apply_opt(old(cfg)@, cs@.subrange(lo as int, hi as int)) {
            Ok(c) => r is Ok && final(cfg)@ == c,
            Err(e) => r matches Err(m) && m@ == e,
        },
{
    let ghost t = cs@.subrange(lo as int, hi as int);
    let found = find_char(cs, lo, hi, '=');
    let (klo, khi, value) = match found {
        Some(p) => {
            let (a, b) = trim_bounds(cs, lo, p);
            let (c, d) = trim_bounds(cs, p + 1, hi);
            let v = string_of(&cs[c..d]);
            proof {
                assert(first_index(t, '=') == Some(p - lo));
                assert(cs@.subrange(lo as int, p as int) =~= t.take(p - lo));
                assert(cs@.subrange(p + 1, hi as int) =~= t.skip(p - lo + 1));
                assert(cs@.subrange(a as int, b as int) == key_value(t).0);
                assert(v@ == key_value(t).1);
            }
            (a, b, v)
        },
        None => {
            proof {
                assert(first_index(t, '=') is None);
            }
            (lo, hi, owned("true"))
        },
    };
    assert(cs@.subrange(klo as int, khi as int) == key_value(t).0);
    assert(value@ == key_value(t).1);
    if chars_eq(cs, klo, khi, "mode") {
        if crate::text::str_eq_ignore_ascii_case(value.as_str(), "websocket")
            || crate::text::str_eq_ignore_ascii_case(value.as_str(), "ws") {
            cfg.mode = Mode::Websocket;
            Ok(())
        } else {
            let mut m = owned("v2ray-plugin: unsupported mode '");
            string_append(&mut m, value.as_str());
            string_append(&mut m, "' (only 'websocket' is supported)");
            Err(m)
        }
    } else if chars_eq(cs, klo, khi, "tls") {
        cfg.tls = parse_bool(value.as_str());
        Ok(())
    } else if chars_eq(cs, klo, khi, "host") {
        cfg.host = value;
        Ok(())
    } else if chars_eq(cs, klo, khi, "path") {
        cfg.path = value;
        Ok(())
    } else if chars_eq(cs, klo, khi, "mux") {
        cfg.mux = parse_bool(value.as_str());
        Ok(())
    } else if chars_eq(cs, klo, khi, "skip-cert-verify") {
        cfg.skip_cert_verify = parse_bool(value.as_str());
        Ok(())
    } else if chars_eq(cs, klo, khi, "header") {
        let vs = chars_of(value.as_str());
        match find_char(&vs, 0, vs.len(), ':') {
            Some(p) => {
                let (a, b) = trim_bounds(&vs, 0, p);
                let (c, d) = trim_bounds(&vs, p + 1, vs.len());
                proof {
                    assert(vs@.subrange(0, vs@.len() as int) =~= vs@);
                    assert(vs@.subrange(0, p as int) =~= vs@.take(p as int));
                    assert(vs@.subrange(p + 1, vs@.len() as int) =~= vs@.skip(p + 1));
                }
                let k = string_of(&vs[a..b]);
                let v = string_of(&vs[c..d]);
                cfg.headers.insert(k, v);
                Ok(())
            },
            None => {
                proof {
                    assert(vs@.subrange(0, vs@.len() as int) =~= vs@);
                }
                Ok(())
            },
        }
    } else {
        Ok(())
    }
}

/// Reads a SIP003 options string (`mode=websocket;tls;host=...;path=/ws;mux=1`).
/// Bare keys mean `key=true`; unknown keys are ignored; a mode other than
/// WebSocket is a configuration error.
pub fn parse_opts(s: &str) -> (r: Result<V2rayPluginConfig, MeowError>)
    ensures
        match spec_parse_opts(s@) {
            Ok(v) => r matches Ok(cfg) && cfg@ == v,
            Err(m) => r matches Err(MeowError::Config(e)) && e@ == m,
        },
{
    let cs = chars_of(s);
    let n = cs.len();
    let mut cfg = V2rayPluginConfig::default();
    let mut start: usize = 0;
    proof {
        assert(cs@.skip(0) =~= s@);
    }
    loop
        invariant
            start <= n,
            n == cs@.len(),
            spec_parse_opts(s@) == apply_opts(cfg@, split_char(cs@.skip(start as int), ';')),
        decreases n - start,
    {
        let ghost rest = cs@.skip(start as int);
        let end = match find_char(&cs, start, n, ';') {
            Some(p) => p,
            None => n,
        };
        proof {
            assert(cs@.subrange(start as int, n as int) =~= rest);
            assert(cs@.subrange(start as int, end as int) =~= rest.take(end - start));
            if end < n {
                assert(first_index(rest, ';') == Some(end - start));
                assert(cs@.skip(end + 1) =~= rest.skip(end - start + 1));
                assert(split_char(rest, ';') == seq![rest.take(end - start)] + split_char(
                    cs@.skip(end + 1),
                    ';',
                ));
                assert((seq![rest.take(end - start)] + split_char(cs@.skip(end + 1), ';')).drop_first()
                    =~= split_char(cs@.skip(end + 1), ';'));
            } else {
                assert(rest.take(end - start) =~= rest);
                assert(split_char(rest, ';') == seq![rest]);
                assert(seq![rest].drop_first() =~= Seq::<Seq<char>>::empty());
            }
        }
        let (lo, hi) = trim_bounds(&cs, start, end);
        if lo < hi {
            match apply_token(&mut cfg, &cs, lo, hi) {
                Ok(()) => {},
                Err(m) => {
                    return Err(MeowError::Config(m));
                },
            }
        }
        if end == n {
            assert(apply_opts(cfg@, Seq::<Seq<char>>::empty()) == Ok::<OptsView, Seq<char>>(cfg@));
            return Ok(cfg);
        }
        start = end + 1;
    }
}

} // verus!
