//! The server's own settings (where to bind, where data lives, whether to
//! persist, which origins may call it) as the environment gives them:
//! comma-separated lists, on/off flags and defaults. Reading the environment
//! itself happens at the edge.

use vstd::prelude::*;
use vstd::string::*;

use crate::persist::{sanitize, spec_sanitize};
use crate::text::{chars_of, spec_ascii_lower_seq, spec_trim, string_from_range, to_ascii_lower, trim, views};

verus! {

/// Appends a trimmed piece unless it is blank.
pub open spec fn push_nonblank(done: Seq<Seq<char>>, piece: Seq<char>) -> Seq<Seq<char>> {
    if spec_trim(piece).len() == 0 {
        done
    } else {
        done.push(spec_trim(piece))
    }
}

/// Scanning a comma-separated text: the finished items and the piece after
/// the last comma.
pub open spec fn csv_scan(s: Seq<char>) -> (Seq<Seq<char>>, Seq<char>)
    decreases s.len(),
{
    if s.len() == 0 {
        (Seq::empty(), Seq::empty())
    } else {
        let (done, cur) = csv_scan(s.drop_last());
        if s.last() == ',' {
            (push_nonblank(done, cur), Seq::empty())
        } else {
            (done, cur.push(s.last()))
        }
    }
}

/// The comma-separated items of `s`, trimmed, blanks dropped.
pub open spec fn spec_parse_csv(s: Seq<char>) -> Seq<Seq<char>> {
    push_nonblank(csv_scan(s).0, csv_scan(s).1)
}

/// Splits a comma-separated string, trimming whitespace and dropping empty
/// entries.
pub fn parse_csv(raw: &str) -> (r: Vec<String>)
    ensures
        views(r@) == spec_parse_csv(raw@),
{
    let cs = chars_of(raw);
    let mut out: Vec<String> = Vec::new();
    let mut cur: Vec<char> = Vec::new();
    let mut i: usize = 0;
    while i < cs.len()
        invariant
            cs@ == raw@,
            i <= cs@.len(),
            (views(out@), cur@) == csv_scan(cs@.subrange(0, i as int)),
        decreases cs@.len() - i,
    {
        let c = cs[i];
        proof {
            assert(cs@.subrange(0, i + 1).drop_last() =~= cs@.subrange(0, i as int));
        }
        if c == ',' {
            let piece = string_from_range(&cur, 0, cur.len());
            assert(cur@.subrange(0, cur@.len() as int) =~= cur@);
            let t = trim(piece.as_str());
            if t.unicode_len() > 0 {
                let ghost before = views(out@);
                out.push(t);
                assert(views(out@) =~= before.push(spec_trim(cur@)));
            }
            cur = Vec::new();
        } else {
            cur.push(c);
        }
        i = i + 1;
    }
    assert(cs@.subrange(0, i as int) =~= cs@);
    let piece = string_from_range(&cur, 0, cur.len());
    assert(cur@.subrange(0, cur@.len() as int) =~= cur@);
    let t = trim(piece.as_str());
    if t.unicode_len() > 0 {
        let ghost before = views(out@);
        out.push(t);
        assert(views(out@) =~= before.push(spec_trim(cur@)));
    }
    out
}

/// A setting value as compared: trimmed and ASCII-lowercased.
pub open spec fn spec_flag_text(v: Seq<char>) -> Seq<char> {
    spec_ascii_lower_seq(spec_trim(v))
}

/// Whether a flag's value turns it on: `1`, `true`, `yes` or `on` (any case,
/// surrounding space ignored); anything else is off.
pub fn parse_flag(v: &str) -> (r: bool)
    ensures
        r == (spec_flag_text(v@) == "1"@ || spec_flag_text(v@) == "true"@ || spec_flag_text(v@) == "yes"@
            || spec_flag_text(v@) == "on"@),
{
    let t = to_ascii_lower(trim(v).as_str());
    t == String::from_str("1") || t == String::from_str("true") || t == String::from_str("yes") || t
        == String::from_str("on")
}

/// Whether the open-a-browser setting stays on: everything but `0`, `false`,
/// `no` or `off` (any case, surrounding space ignored).
pub fn parse_open(v: &str) -> (r: bool)
    ensures
        r == !(spec_flag_text(v@) == "0"@ || spec_flag_text(v@) == "false"@ || spec_flag_text(v@) == "no"@
            || spec_flag_text(v@) == "off"@),
{
    let t = to_ascii_lower(trim(v).as_str());
    !(t == String::from_str("0") || t == String::from_str("false") || t == String::from_str("no") || t
        == String::from_str("off"))
}

/// The account served when nothing names another.
pub const DEFAULT_ACCOUNT_ID: &'static str = "default";

/// The address bound when nothing names another.
pub const DEFAULT_BIND: &'static str = "127.0.0.1:8080";

/// The data root used when nothing names another.
pub const DEFAULT_DATA_DIR: &'static str = "./data";

/// The server settings, each as read from the environment (`None` when
/// unset): `AGORALUME_BIND`, `_DATA_DIR`, `_ACCOUNT_ID`, `_PERSIST`,
/// `_WEB_DIR`, `_OPEN` and `_CORS_ORIGINS`.
#[derive(Clone, Debug)]
pub struct ConfigVars {
    pub bind: Option<String>,
    pub data_dir: Option<String>,
    pub account_id: Option<String>,
    pub persist: Option<String>,
    pub web_dir: Option<String>,
    pub open: Option<String>,
    pub cors_origins: Option<String>,
}

/// Server-level runtime configuration.
#[derive(Clone, Debug)]
pub struct Config {
    /// The `host:port` the server binds to, as given.
    pub bind: String,
    /// Root directory for on-disk state.
    pub data_dir: String,
    /// Which account's data this run serves.
    pub account_id: String,
    /// An explicit choice to persist (or not); `None` leaves it to the default.
    pub persist_override: Option<bool>,
    /// An explicit path to the built frontend.
    pub web_dir: Option<String>,
    /// Whether to open the site in a browser once the server is up.
    pub open_browser: bool,
    /// The origins allowed to call cross-origin; `None` allows any.
    pub cors_allowed_origins: Option<Vec<String>>,
}

/// A set value, or the default.
pub open spec fn spec_or(v: Option<Seq<char>>, default: Seq<char>) -> Seq<char> {
    match v {
        Some(t) => t,
        None => default,
    }
}

fn or_default(v: &Option<String>, default: &str) -> (r: String)
    ensures
        r@ == spec_or(crate::models::opt_view(*v), default@),
{
    match v {
        Some(t) => t.clone(),
        None => String::from_str(default),
    }
}

/// The allowed origins a list variable gives: `None` when it is unset or
/// names none.
pub open spec fn spec_origins(v: Option<Seq<char>>) -> Option<Seq<Seq<char>>> {
    match v {
        Some(t) => if spec_parse_csv(t).len() == 0 {
            None
        } else {
            Some(spec_parse_csv(t))
        },
        None => None,
    }
}

/// `data_dir`-style path joining: `seg` under `base`, with one separator.
pub open spec fn spec_join(base: Seq<char>, seg: Seq<char>) -> Seq<char> {
    if base.len() == 0 {
        seg
    } else if base.last() == '/' {
        base + seg
    } else {
        base + "/"@ + seg
    }
}

fn join(base: &str, seg: &str) -> (r: String)
    ensures
        r@ == spec_join(base@, seg@),
{
    let n = base.unicode_len();
    if n == 0 {
        return String::from_str(seg);
    }
    let mut r = String::from_str(base);
    if base.get_char(n - 1) != '/' {
        r.append("/");
    }
    r.append(seg);
    r
}

impl Config {
    /// The configuration the environment describes: each unset value takes
    /// its default, the persist flag stays three-way (unset, on, off), the
    /// browser opens unless told `0`/`false`/`no`/`off`, and an origin list
    /// that names no origin counts as unset.
    pub fn from_vars(v: &ConfigVars) -> (c: Config)
        ensures
            c.bind@ == spec_or(crate::models::opt_view(v.bind), DEFAULT_BIND@),
            c.data_dir@ == spec_or(crate::models::opt_view(v.data_dir), DEFAULT_DATA_DIR@),
            c.account_id@ == spec_or(crate::models::opt_view(v.account_id), DEFAULT_ACCOUNT_ID@),
            c.persist_override == (match v.persist {
                Some(t) => Some({
                    let f = spec_flag_text(t@);
                    f == "1"@ || f == "true"@ || f == "yes"@ || f == "on"@
                }),
                None => None,
            }),
            c.web_dir == v.web_dir,
            c.open_browser == (match v.open {
                Some(t) => {
                    let f = spec_flag_text(t@);
                    !(f == "0"@ || f == "false"@ || f == "no"@ || f == "off"@)
                },
                None => true,
            }),
            (match c.cors_allowed_origins {
                Some(o) => Some(views(o@)),
                None => None::<Seq<Seq<char>>>,
            }) == spec_origins(crate::models::opt_view(v.cors_origins)),
    {
        let persist_override = match &v.persist {
            Some(t) => Some(parse_flag(t.as_str())),
            None => None,
        };
        let open_browser = match &v.open {
            Some(t) => parse_open(t.as_str()),
            None => true,
        };
        let cors_allowed_origins = match &v.cors_origins {
            Some(t) => {
                let items = parse_csv(t.as_str());
                if items.len() == 0 {
                    None
                } else {
                    Some(items)
                }
            },
            None => None,
        };
        Config {
            bind: or_default(&v.bind, DEFAULT_BIND),
            data_dir: or_default(&v.data_dir, DEFAULT_DATA_DIR),
            account_id: or_default(&v.account_id, DEFAULT_ACCOUNT_ID),
            persist_override,
            web_dir: v.web_dir.clone(),
            open_browser,
            cors_allowed_origins,
        }
    }

    /// This account's own subtree: `<data_dir>/accounts/<sanitized id>`, so
    /// an account id can never lead outside it.
    pub fn account_data_dir(&self) -> (r: String)
        ensures
            r@ == spec_join(spec_join(self.data_dir@, "accounts"@), spec_sanitize(self.account_id@)),
    {
        let accounts = join(self.data_dir.as_str(), "accounts");
        let id = sanitize(self.account_id.as_str());
        join(accounts.as_str(), id.as_str())
    }
}

} // verus!
