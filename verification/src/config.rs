use vstd::prelude::*;

use crate::errors::WalletError;
use crate::text::push_char;

verus! {

/// The persisted configuration: the RPC endpoint and the default
/// address for balance queries.
pub struct Config {
    pub cluster: String,
    pub pubkey: String,
}

impl Default for Config {
    /// A fresh configuration: the public devnet endpoint and no default
    /// address.
    fn default() -> (r: Config)
        ensures
            r.cluster@ == "https://api.devnet.solana.com"@,
            r.pubkey@ == Seq::<char>::empty(),
    {
        Config {
            cluster: String::from_str("https://api.devnet.solana.com"),
            pubkey: String::new(),
        }
    }
}

pub open spec fn spec_is_ws(c: char) -> bool {
    c == ' ' || c == '\t' || c == '\n' || c == '\r'
}

/// The first index at or after `i` holding something other than
/// whitespace, or the length.
pub open spec fn spec_skip_ws(s: Seq<char>, i: int) -> int
    decreases s.len() - i,
{
    if 0 <= i < s.len() && spec_is_ws(s[i]) {
        spec_skip_ws(s, i + 1)
    } else {
        i
    }
}

/// Scans quoted-string content from `i` up to the closing quote:
/// the content and the index after the quote.  Content is any
/// character except a quote or a backslash; escapes are not part of
/// this document format.
pub open spec fn spec_scan_content(s: Seq<char>, i: int) -> Option<(Seq<char>, int)>
    decreases s.len() - i,
{
    if !(0 <= i < s.len()) {
        None
    } else if s[i] == '"' {
        Some((Seq::empty(), i + 1))
    } else if s[i] == '\\' {
        None
    } else {
        match spec_scan_content(s, i + 1) {
            Some(p) => Some((seq![s[i]] + p.0, p.1)),
            None => None,
        }
    }
}

/// Scans a quoted string starting exactly at `i`.
pub open spec fn spec_scan_string(s: Seq<char>, i: int) -> Option<(Seq<char>, int)> {
    if 0 <= i < s.len() && s[i] == '"' {
        spec_scan_content(s, i + 1)
    } else {
        None
    }
}

/// Scans one `"key": "value"` member starting exactly at `i`: key,
/// value, and the index after the value.
pub open spec fn spec_scan_member(s: Seq<char>, i: int) -> Option<(Seq<char>, Seq<char>, int)> {
    match spec_scan_string(s, i) {
        None => None,
        Some(k) => {
            let j = spec_skip_ws(s, k.1);
            if j < s.len() && s[j] == ':' {
                match spec_scan_string(s, spec_skip_ws(s, j + 1)) {
                    None => None,
                    Some(v) => Some((k.0, v.0, v.1)),
                }
            } else {
                None
            }
        },
    }
}

/// Parses a configuration document: an object holding exactly the two
/// members `cluster` and `pubkey`, in either order, with whitespace
/// allowed between tokens.  Yields the cluster and the pubkey.
pub open spec fn spec_parse_config(s: Seq<char>) -> Option<(Seq<char>, Seq<char>)> {
    let i0 = spec_skip_ws(s, 0);
    if i0 < s.len() && s[i0] == '{' {
        match spec_scan_member(s, spec_skip_ws(s, i0 + 1)) {
            None => None,
            Some(m1) => {
                let j1 = spec_skip_ws(s, m1.2);
                if j1 < s.len() && s[j1] == ',' {
                    match spec_scan_member(s, spec_skip_ws(s, j1 + 1)) {
                        None => None,
                        Some(m2) => {
                            let j4 = spec_skip_ws(s, m2.2);
                            if j4 < s.len() && s[j4] == '}' && spec_skip_ws(s, j4 + 1) == s.len() {
                                if m1.0 == "cluster"@ && m2.0 == "pubkey"@ {
                                    Some((m1.1, m2.1))
                                } else if m1.0 == "pubkey"@ && m2.0 == "cluster"@ {
                                    Some((m2.1, m1.1))
                                } else {
                                    None
                                }
                            } else {
                                None
                            }
                        },
                    }
                } else {
                    None
                }
            },
        }
    } else {
        None
    }
}

/// The rendered configuration document: the object pretty-printed over
/// three lines, two-space indent, `cluster` first.
pub open spec fn spec_config_json(cluster: Seq<char>, pubkey: Seq<char>) -> Seq<char> {
    "{\n  \"cluster\": \""@ + cluster + "\",\n  \"pubkey\": \""@ + pubkey + "\"\n}"@
}

/// A scan for whitespace runs to the first non-whitespace position.
proof fn lemma_ws_run(s: Seq<char>, i: int, j: int)
    requires
        0 <= i <= j <= s.len(),
        forall|k: int| i <= k < j ==> spec_is_ws(#[trigger] s[k]),
        j == s.len() || !spec_is_ws(s[j]),
    ensures
        spec_skip_ws(s, i) == j,
    decreases j - i,
{
    if i < j {
        lemma_ws_run(s, i + 1, j);
    }
}

/// A scan over plain content runs to the closing quote and yields
/// exactly the characters in between.
proof fn lemma_scan_plain(s: Seq<char>, i: int, j: int)
    requires
        0 <= i <= j < s.len(),
        forall|k: int| i <= k < j ==> #[trigger] s[k] != '"' && s[k] != '\\',
        s[j] == '"',
    ensures
        spec_scan_content(s, i) == Some((s.subrange(i, j), j + 1)),
    decreases j - i,
{
    if i == j {
        assert(s.subrange(i, j) =~= Seq::<char>::empty());
    } else {
        lemma_scan_plain(s, i + 1, j);
        assert(seq![s[i]] + s.subrange(i + 1, j) =~= s.subrange(i, j));
    }
}

/// Rendering a configuration and parsing the document back yields the
/// same two fields, whatever they hold, as long as neither holds a
/// quote or a backslash (which this document format cannot carry).
pub proof fn lemma_config_round_trip(cluster: Seq<char>, pubkey: Seq<char>)
    requires
        forall|i: int| 0 <= i < cluster.len() ==> #[trigger] cluster[i] != '"' && cluster[i]
            != '\\',
        forall|i: int| 0 <= i < pubkey.len() ==> #[trigger] pubkey[i] != '"' && pubkey[i] != '\\',
    ensures
        spec_parse_config(spec_config_json(cluster, pubkey)) == Some((cluster, pubkey)),
{
    reveal_strlit("{\n  \"cluster\": \"");
    reveal_strlit("\",\n  \"pubkey\": \"");
    reveal_strlit("\"\n}");
    reveal_strlit("cluster");
    reveal_strlit("pubkey");
    let a = "{\n  \"cluster\": \""@;
    let b = "\",\n  \"pubkey\": \""@;
    let d = "\"\n}"@;
    let n = cluster.len() as int;
    let m = pubkey.len() as int;
    let s = spec_config_json(cluster, pubkey);
    assert(a.len() == 16);
    assert(b.len() == 16);
    assert(d.len() == 3);
    assert(s.len() == 35 + n + m);
    assert(forall|k: int| 0 <= k < 16 ==> #[trigger] s[k] == a[k]);
    assert(forall|k: int| 16 <= k < 16 + n ==> #[trigger] s[k] == cluster[k - 16]);
    assert(forall|k: int| 16 + n <= k < 32 + n ==> #[trigger] s[k] == b[k - 16 - n]);
    assert(forall|k: int| 32 + n <= k < 32 + n + m ==> #[trigger] s[k] == pubkey[k - 32 - n]);
    assert(forall|k: int| 32 + n + m <= k < 35 + n + m ==> #[trigger] s[k] == d[k - 32 - n - m]);
    // the opening brace, then the first member's key
    assert(spec_skip_ws(s, 0) == 0);
    assert(s[0] == '{');
    lemma_ws_run(s, 1, 4);
    assert(s[4] == '"');
    lemma_scan_plain(s, 5, 12);
    assert(s.subrange(5, 12) =~= "cluster"@);
    assert(spec_scan_string(s, 4) == Some(("cluster"@, 13int)));
    // the colon, then the first member's value
    lemma_ws_run(s, 13, 13);
    assert(s[13] == ':');
    lemma_ws_run(s, 14, 15);
    assert(s[15] == '"');
    assert(s[16 + n] == '"');
    lemma_scan_plain(s, 16, 16 + n);
    assert(s.subrange(16, 16 + n) =~= cluster);
    assert(spec_scan_string(s, 15) == Some((cluster, 17 + n)));
    assert(spec_scan_member(s, 4) == Some(("cluster"@, cluster, 17 + n)));
    // the comma between the members
    lemma_ws_run(s, 17 + n, 17 + n);
    assert(s[17 + n] == ',');
    lemma_ws_run(s, 18 + n, 21 + n);
    // the second member's key
    assert(s[21 + n] == '"');
    lemma_scan_plain(s, 22 + n, 28 + n);
    assert(s.subrange(22 + n, 28 + n) =~= "pubkey"@);
    assert(spec_scan_string(s, 21 + n) == Some(("pubkey"@, 29 + n)));
    // the colon, then the second member's value
    lemma_ws_run(s, 29 + n, 29 + n);
    assert(s[29 + n] == ':');
    lemma_ws_run(s, 30 + n, 31 + n);
    assert(s[31 + n] == '"');
    assert(s[32 + n + m] == '"');
    lemma_scan_plain(s, 32 + n, 32 + n + m);
    assert(s.subrange(32 + n, 32 + n + m) =~= pubkey);
    assert(spec_scan_string(s, 31 + n) == Some((pubkey, 33 + n + m)));
    assert(spec_scan_member(s, 21 + n) == Some(("pubkey"@, pubkey, 33 + n + m)));
    // the closing brace and the end
    lemma_ws_run(s, 33 + n + m, 34 + n + m);
    assert(s[34 + n + m] == '}');
    lemma_ws_run(s, 35 + n + m, 35 + n + m);
    assert(spec_parse_config(s) == Some((cluster, pubkey)));
}

/// Renders a configuration, character for character the document of
/// `spec_config_json`.
pub fn config_to_json(config: &Config) -> (r: String)
    ensures
        r@ == spec_config_json(config.cluster@, config.pubkey@),
{
    let mut r = String::from_str("{\n  \"cluster\": \"");
    r.append(config.cluster.as_str());
    r.append("\",\n  \"pubkey\": \"");
    r.append(config.pubkey.as_str());
    r.append("\"\n}");
    proof {
        assert(r@ =~= spec_config_json(config.cluster@, config.pubkey@));
    }
    r
}

/// Moves past whitespace.
fn skip_ws(s: &str, i: usize) -> (r: usize)
    requires
        i <= s@.len(),
    ensures
        r == spec_skip_ws(s@, i as int),
        i <= r <= s@.len(),
{
    let n = s.unicode_len();
    let mut j = i;
    loop
        invariant_except_break
            n == s@.len(),
            i <= j <= n,
            spec_skip_ws(s@, i as int) == spec_skip_ws(s@, j as int),
        ensures
            i <= j <= n,
            spec_skip_ws(s@, i as int) == j,
        decreases n - j,
    {
        if j >= n {
            break;
        }
        let c = s.get_char(j);
        if !(c == ' ' || c == '\t' || c == '\n' || c == '\r') {
            break;
        }
        j = j + 1;
    }
    j
}

/// Scans a quoted string starting exactly at `i`; the content and the
/// index after the closing quote.
fn scan_string(s: &str, i: usize) -> (r: Option<(String, usize)>)
    requires
        i <= s@.len(),
    ensures
        match r {
            Some(p) => spec_scan_string(s@, i as int) matches Some(q) && p.0@ == q.0 && p.1 == q.1
                && i < p.1 <= s@.len(),
            None => spec_scan_string(s@, i as int) is None,
        },
{
    let n = s.unicode_len();
    if i >= n || s.get_char(i) != '"' {
        return None;
    }
    let mut acc = String::new();
    let mut j = i + 1;
    loop
        invariant_except_break
            n == s@.len(),
            i + 1 <= j <= n,
            spec_scan_content(s@, i + 1) == (match spec_scan_content(s@, j as int) {
                Some(p) => Some((acc@ + p.0, p.1)),
                None => None::<(Seq<char>, int)>,
            }),
        ensures
            match spec_scan_content(s@, i + 1) {
                Some(p) => acc@ == p.0 && j == p.1 && i < j <= s@.len(),
                None => false,
            },
        decreases n - j,
    {
        if j >= n {
            proof {
                assert(spec_scan_content(s@, j as int) is None);
            }
            return None;
        }
        let c = s.get_char(j);
        if c == '"' {
            proof {
                assert(spec_scan_content(s@, j as int) == Some((Seq::<char>::empty(), j + 1)));
                assert(acc@ + Seq::<char>::empty() =~= acc@);
            }
            j = j + 1;
            break;
        }
        if c == '\\' {
            proof {
                assert(spec_scan_content(s@, j as int) is None);
            }
            return None;
        }
        let ghost old_acc = acc@;
        push_char(&mut acc, c);
        proof {
            match spec_scan_content(s@, j + 1) {
                Some(p) => {
                    assert(spec_scan_content(s@, j as int) == Some(
                        (seq![s@[j as int]] + p.0, p.1),
                    ));
                    assert(old_acc + (seq![s@[j as int]] + p.0) =~= acc@ + p.0);
                },
                None => {
                    assert(spec_scan_content(s@, j as int) is None);
                },
            }
        }
        j = j + 1;
    }
    Some((acc, j))
}

/// Scans one `"key": "value"` member starting exactly at `i`.
fn scan_member(s: &str, i: usize) -> (r: Option<(String, String, usize)>)
    requires
        i <= s@.len(),
    ensures
        match r {
            Some(m) => spec_scan_member(s@, i as int) matches Some(q) && m.0@ == q.0 && m.1@ == q.1
                && m.2 == q.2 && i < m.2 <= s@.len(),
            None => spec_scan_member(s@, i as int) is None,
        },
{
    let n = s.unicode_len();
    let (key, after_key) = match scan_string(s, i) {
        Some(p) => p,
        None => {
            return None;
        },
    };
    let j = skip_ws(s, after_key);
    if j >= n || s.get_char(j) != ':' {
        return None;
    }
    let vstart = skip_ws(s, j + 1);
    let (value, after_value) = match scan_string(s, vstart) {
        Some(p) => p,
        None => {
            return None;
        },
    };
    Some((key, value, after_value))
}

/// What loading the configuration produced: the configuration in use,
/// and, on a first run, the fresh document that must be persisted.
pub struct ConfigLoad {
    pub config: Config,
    pub created_file: Option<String>,
}

/// Loads the configuration from the contents of the configuration
/// file, or self-initializes: given no file, the default configuration
/// is returned together with the document to persist, so that a
/// read-only-looking first run creates its own state.  A present but
/// malformed file is an error, never silently replaced.
pub fn load_config(file: Option<&str>) -> (r: Result<ConfigLoad, WalletError>)
    ensures
        match file {
            Some(f) => match r {
                Ok(l) => {
                    &&& spec_parse_config(f@) matches Some(p) && l.config.cluster@ == p.0
                        && l.config.pubkey@ == p.1
                    &&& l.created_file is None
                },
                Err(e) => spec_parse_config(f@) is None && e is ConfigError,
            },
            None => match r {
                Ok(l) => {
                    &&& l.config.cluster@ == "https://api.devnet.solana.com"@
                    &&& l.config.pubkey@ == Seq::<char>::empty()
                    &&& l.created_file matches Some(doc) && doc@ == spec_config_json(
                        l.config.cluster@,
                        l.config.pubkey@,
                    )
                },
                Err(_) => false,
            },
        },
{
    match file {
        None => {
            let config = Config::default();
            let doc = config_to_json(&config);
            Ok(ConfigLoad { config, created_file: Some(doc) })
        },
        Some(f) => {
            let n = f.unicode_len();
            let i0 = skip_ws(f, 0);
            if i0 >= n || f.get_char(i0) != '{' {
                return Err(WalletError::ConfigError);
            }
            let m1start = skip_ws(f, i0 + 1);
            let (k1, v1, after1) = match scan_member(f, m1start) {
                Some(m) => m,
                None => {
                    return Err(WalletError::ConfigError);
                },
            };
            let j1 = skip_ws(f, after1);
            if j1 >= n || f.get_char(j1) != ',' {
                return Err(WalletError::ConfigError);
            }
            let m2start = skip_ws(f, j1 + 1);
            let (k2, v2, after2) = match scan_member(f, m2start) {
                Some(m) => m,
                None => {
                    return Err(WalletError::ConfigError);
                },
            };
            let j4 = skip_ws(f, after2);
            if j4 >= n || f.get_char(j4) != '}' {
                return Err(WalletError::ConfigError);
            }
            if skip_ws(f, j4 + 1) != n {
                return Err(WalletError::ConfigError);
            }
            let k1_is_cluster = crate::text::str_eq(k1.as_str(), "cluster");
            let k2_is_pubkey = crate::text::str_eq(k2.as_str(), "pubkey");
            if k1_is_cluster && k2_is_pubkey {
                return Ok(
                    ConfigLoad { config: Config { cluster: v1, pubkey: v2 }, created_file: None },
                );
            }
            let k1_is_pubkey = crate::text::str_eq(k1.as_str(), "pubkey");
            let k2_is_cluster = crate::text::str_eq(k2.as_str(), "cluster");
            if k1_is_pubkey && k2_is_cluster {
                return Ok(
                    ConfigLoad { config: Config { cluster: v2, pubkey: v1 }, created_file: None },
                );
            }
            Err(WalletError::ConfigError)
        },
    }
}

} // verus!
