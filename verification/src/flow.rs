//! The authorization flow's pure parts: building the provider's
//! authorization URL and extracting the authorization code from the
//! redirect the browser delivers.
//!
//! Opening the browser, listening for the redirect and the manual-entry
//! fallback are the embedding application's work; it hands the raw
//! redirect URL back to [`extract_code`] (usually through the token
//! manager).

use vstd::prelude::*;

verus! {

use crate::errors::AuthError;
use crate::text::chars_of_str;
use crate::text::copy_range;
use crate::text::push_str_chars;
use crate::text::string_from_chars;

/// Mathematical model of a [`ClientConfig`].
pub struct ClientConfigView {
    pub client_id: Seq<char>,
    pub client_secret: Seq<char>,
    pub redirect_uri: Seq<char>,
    pub scopes: Seq<Seq<char>>,
}

impl ClientConfigView {
    /// Usable credentials: both parts present. An empty configuration
    /// must refuse to start the flow.
    pub open spec fn wf(self) -> bool {
        self.client_id.len() > 0 && self.client_secret.len() > 0
    }
}

/// The provider registration this build runs under: client credentials,
/// the registered redirect URI, and the scopes the build requests.
pub struct ClientConfig {
    client_id: String,
    client_secret: String,
    redirect_uri: String,
    scopes: Vec<String>,
}

impl View for ClientConfig {
    type V = ClientConfigView;

    closed spec fn view(&self) -> ClientConfigView {
        ClientConfigView {
            client_id: self.client_id@,
            client_secret: self.client_secret@,
            redirect_uri: self.redirect_uri@,
            scopes: self.scopes@.map_values(|s: String| s@),
        }
    }
}

impl ClientConfig {
    /// Build a configuration. Returns `None` exactly when a credential
    /// part is empty: the flow then must not start, and the operator is
    /// told to fill the settings in.
    pub fn new(client_id: String, client_secret: String, redirect_uri: String, scopes: Vec<String>)
        -> (r: Option<ClientConfig>)
        ensures
            ({
                let v = ClientConfigView {
                    client_id: client_id@,
                    client_secret: client_secret@,
                    redirect_uri: redirect_uri@,
                    scopes: scopes@.map_values(|s: String| s@),
                };
                match r {
                    Some(cfg) => cfg@ == v && v.wf(),
                    None => !v.wf(),
                }
            }),
    {
        if client_id.as_str().is_empty() || client_secret.as_str().is_empty() {
            None
        } else {
            Some(ClientConfig { client_id, client_secret, redirect_uri, scopes })
        }
    }

    /// The client id.
    pub fn client_id(&self) -> (r: &String)
        ensures
            r@ == self@.client_id,
    {
        &self.client_id
    }

    /// The client secret (used by the code-exchange and refresh calls).
    pub fn client_secret(&self) -> (r: &String)
        ensures
            r@ == self@.client_secret,
    {
        &self.client_secret
    }

    /// The registered redirect URI.
    pub fn redirect_uri(&self) -> (r: &String)
        ensures
            r@ == self@.redirect_uri,
    {
        &self.redirect_uri
    }

    /// The requested scopes.
    pub fn scopes(&self) -> (r: &Vec<String>)
        ensures
            r@.map_values(|s: String| s@) == self@.scopes,
    {
        &self.scopes
    }
}

// ---------------------------------------------------------------------
// Percent-encoding and the authorization URL
// ---------------------------------------------------------------------

/// Characters that stay as they are in a URL query value.
pub open spec fn is_unreserved(c: char) -> bool {
    (97 <= c as u32 <= 122) || (65 <= c as u32 <= 90) || (48 <= c as u32 <= 57) || c == '-' || c
        == '_' || c == '.' || c == '~'
}

/// Uppercase hexadecimal digit for a value in `0 ..= 15`.
pub open spec fn hex_digit(d: int) -> char
    recommends
        0 <= d <= 15,
{
    if d < 10 {
        ((d + 48) as u8) as char
    } else {
        ((d + 55) as u8) as char
    }
}

/// The encoding of one character: unreserved characters stay, other
/// ASCII characters become `%XX`. Characters outside the ASCII range are
/// passed through unchanged (this provider's identifiers, URIs and
/// scopes are ASCII).
pub open spec fn pct_char(c: char) -> Seq<char> {
    if is_unreserved(c) {
        seq![c]
    } else if (c as u32) < 128 {
        seq!['%', hex_digit(c as u32 as int / 16), hex_digit(c as u32 as int % 16)]
    } else {
        seq![c]
    }
}

/// Percent-encoding of a whole value.
pub open spec fn pct_encode(s: Seq<char>) -> Seq<char>
    decreases s.len(),
{
    if s.len() == 0 {
        Seq::empty()
    } else {
        pct_char(s[0]) + pct_encode(s.drop_first())
    }
}

proof fn lemma_pct_append(a: Seq<char>, b: Seq<char>)
    ensures
        pct_encode(a + b) == pct_encode(a) + pct_encode(b),
    decreases a.len(),
{
    if a.len() == 0 {
        assert(a + b =~= b);
        assert(pct_encode(a) + pct_encode(b) =~= pct_encode(b));
    } else {
        assert((a + b).drop_first() =~= a.drop_first() + b);
        assert((a + b)[0] == a[0]);
        lemma_pct_append(a.drop_first(), b);
        assert(pct_char(a[0]) + (pct_encode(a.drop_first()) + pct_encode(b)) =~= (pct_char(a[0])
            + pct_encode(a.drop_first())) + pct_encode(b));
    }
}

/// Append the percent-encoding of the characters `v`.
fn push_pct(out: &mut Vec<char>, v: &Vec<char>)
    ensures
        final(out)@ == old(out)@ + pct_encode(v@),
{
    proof {
        assert(out@ =~= old(out)@ + pct_encode(v@.take(0)));
    }
    let mut t: usize = 0;
    while t < v.len()
        invariant
            t <= v@.len(),
            out@ == old(out)@ + pct_encode(v@.take(t as int)),
        decreases v@.len() - t,
    {
        let c = v[t];
        let u = c as u32;
        let unreserved = (97 <= u && u <= 122) || (65 <= u && u <= 90) || (48 <= u && u <= 57) || c
            == '-' || c == '_' || c == '.' || c == '~';
        if unreserved || u >= 128 {
            out.push(c);
            proof {
                assert(pct_char(c) =~= seq![c]);
            }
        } else {
            out.push('%');
            let hi = u / 16;
            let lo = u % 16;
            let hc: char = if hi < 10 {
                ((hi as u8) + 48) as char
            } else {
                ((hi as u8) + 55) as char
            };
            let lc: char = if lo < 10 {
                ((lo as u8) + 48) as char
            } else {
                ((lo as u8) + 55) as char
            };
            out.push(hc);
            out.push(lc);
            proof {
                assert(pct_char(c) =~= seq!['%', hex_digit(u as int / 16), hex_digit(u as int % 16)]);
            }
        }
        t = t + 1;
        proof {
            assert(v@.take(t as int) =~= v@.take(t - 1) + seq![v@[t - 1]]);
            lemma_pct_append(v@.take(t - 1), seq![v@[t - 1]]);
            assert(seq![v@[t - 1]].drop_first() =~= Seq::<char>::empty());
            assert(pct_encode(Seq::<char>::empty()) == Seq::<char>::empty());
            assert(pct_encode(seq![v@[t - 1]]) =~= pct_char(v@[t - 1]));
            assert(out@ =~= old(out)@ + pct_encode(v@.take(t as int)));
        }
    }
    proof {
        assert(v@.take(v@.len() as int) =~= v@);
    }
}

/// The scopes from index `k` on, space-separated (stable order: exactly
/// the order the configuration lists).
pub open spec fn join_spaces(ss: Seq<Seq<char>>, k: int) -> Seq<char>
    decreases ss.len() - k,
        when 0 <= k <= ss.len()
{
    if k >= ss.len() {
        Seq::empty()
    } else if k == ss.len() - 1 {
        ss[k]
    } else {
        ss[k] + seq![' '] + join_spaces(ss, k + 1)
    }
}

/// The authorization URL for this configuration: authorization-code flow
/// (`response_type=code`), the client id, the registered redirect URI and
/// the space-joined scopes, query values percent-encoded.
pub open spec fn authorize_url_spec(cfg: ClientConfigView) -> Seq<char> {
    "https://accounts.spotify.com/authorize?response_type=code&client_id="@ + pct_encode(
        cfg.client_id,
    ) + "&redirect_uri="@ + pct_encode(cfg.redirect_uri) + "&scope="@ + pct_encode(
        join_spaces(cfg.scopes, 0),
    )
}

/// Build the authorization URL (see [`authorize_url_spec`]).
pub fn build_authorize_url(cfg: &ClientConfig) -> (r: String)
    ensures
        r@ == authorize_url_spec(cfg@),
{
    let mut out: Vec<char> = Vec::new();
    push_str_chars(&mut out, "https://accounts.spotify.com/authorize?response_type=code&client_id=");
    let idv = chars_of_str(cfg.client_id.as_str());
    push_pct(&mut out, &idv);
    push_str_chars(&mut out, "&redirect_uri=");
    let uriv = chars_of_str(cfg.redirect_uri.as_str());
    push_pct(&mut out, &uriv);
    push_str_chars(&mut out, "&scope=");
    let joined = join_scopes(&cfg.scopes);
    proof {
        assert(joined@ == join_spaces(cfg@.scopes, 0));
    }
    push_pct(&mut out, &joined);
    proof {
        assert(out@ =~= authorize_url_spec(cfg@));
    }
    string_from_chars(&out)
}

/// The scopes of `scopes`, space-joined, as characters.
fn join_scopes(scopes: &Vec<String>) -> (r: Vec<char>)
    ensures
        r@ == join_spaces(scopes@.map_values(|s: String| s@), 0),
{
    let ghost ss = scopes@.map_values(|s: String| s@);
    let mut out: Vec<char> = Vec::new();
    proof {
        assert(out@ + join_spaces(ss, 0) =~= join_spaces(ss, 0));
    }
    let mut k: usize = 0;
    while k < scopes.len()
        invariant
            k <= scopes@.len(),
            ss == scopes@.map_values(|s: String| s@),
            ss.len() == scopes@.len(),
            out@ + join_spaces(ss, k as int) == join_spaces(ss, 0),
        decreases scopes@.len() - k,
    {
        let ghost before = out@;
        push_str_chars(&mut out, scopes[k].as_str());
        proof {
            assert(ss[k as int] == scopes@[k as int]@);
        }
        if k + 1 < scopes.len() {
            out.push(' ');
            proof {
                assert(join_spaces(ss, k as int) == ss[k as int] + seq![' '] + join_spaces(
                    ss,
                    k as int + 1,
                ));
                assert(out@ =~= before + (ss[k as int] + seq![' ']));
                assert((before + (ss[k as int] + seq![' '])) + join_spaces(ss, k as int + 1) =~= (
                before + ((ss[k as int] + seq![' ']) + join_spaces(ss, k as int + 1))));
            }
        } else {
            proof {
                assert(join_spaces(ss, k as int) == ss[k as int]);
                assert(join_spaces(ss, k as int + 1) =~= Seq::<char>::empty());
                assert((before + ss[k as int]) + join_spaces(ss, k as int + 1) =~= before + ss[
                    k as int
                ]);
            }
        }
        k = k + 1;
    }
    proof {
        assert(join_spaces(ss, ss.len() as int) =~= Seq::<char>::empty());
        assert(out@ + join_spaces(ss, ss.len() as int) =~= out@);
    }
    out
}

// ---------------------------------------------------------------------
// The code in the redirect
// ---------------------------------------------------------------------

/// First position at or after `i` holding `c` (or the end of `s`).
pub open spec fn find_char(s: Seq<char>, i: int, c: char) -> int
    decreases s.len() - i,
        when 0 <= i <= s.len()
{
    if i < s.len() && s[i] != c {
        find_char(s, i + 1, c)
    } else {
        i
    }
}

proof fn lemma_find_char_props(s: Seq<char>, i: int, c: char)
    requires
        0 <= i <= s.len(),
    ensures
        i <= find_char(s, i, c) <= s.len(),
        find_char(s, i, c) < s.len() ==> s[find_char(s, i, c)] == c,
    decreases s.len() - i,
{
    if i < s.len() && s[i] != c {
        lemma_find_char_props(s, i + 1, c);
    }
}

/// The value of the first `code` query parameter among the parameters
/// from position `i` on (parameters separated by `&`, the value the part
/// after the first `=`; a parameter without `=` has an empty value).
pub open spec fn code_in_params(s: Seq<char>, i: int) -> Option<Seq<char>>
    decreases s.len() - i,
        when 0 <= i <= s.len()
        via code_in_params_dec
{
    let e = find_char(s, i, '&');
    let eqr = find_char(s, i, '=');
    let eq = if eqr < e {
        eqr
    } else {
        e
    };
    let key = s.subrange(i, eq);
    let value = if eq < e {
        s.subrange(eq + 1, e)
    } else {
        Seq::empty()
    };
    if key == "code"@ {
        Some(value)
    } else if e < s.len() {
        code_in_params(s, e + 1)
    } else {
        None
    }
}

#[via_fn]
proof fn code_in_params_dec(s: Seq<char>, i: int) {
    lemma_find_char_props(s, i, '&');
}

/// The authorization code carried by a redirect URL: the value of the
/// `code` parameter of its query part. A redirect without a query part
/// or without a `code` parameter (for example, an `error` parameter
/// after denied consent) carries none.
pub open spec fn code_of_redirect(s: Seq<char>) -> Option<Seq<char>> {
    let q = find_char(s, 0, '?');
    if q == s.len() {
        None
    } else {
        code_in_params(s, q + 1)
    }
}

/// Exec twin of [`find_char`].
fn scan_to(v: &Vec<char>, start: usize, c: char) -> (r: usize)
    requires
        start <= v@.len(),
    ensures
        r == find_char(v@, start as int, c),
        start <= r <= v@.len(),
        r < v@.len() ==> v@[r as int] == c,
{
    let mut i: usize = start;
    while i < v.len() && v[i] != c
        invariant
            start <= i <= v@.len(),
            find_char(v@, start as int, c) == find_char(v@, i as int, c),
        decreases v@.len() - i,
    {
        i = i + 1;
    }
    i
}

/// Extract the authorization code from the raw redirect URL, or report
/// that consent was denied (no `code` parameter present).
pub fn extract_code(redirect: &str) -> (r: Result<String, AuthError>)
    ensures
        match r {
            Ok(code) => code_of_redirect(redirect@) == Some(code@),
            Err(e) => code_of_redirect(redirect@) is None && e == AuthError::AuthorizationDenied,
        },
{
    let v = chars_of_str(redirect);
    let q = scan_to(&v, 0, '?');
    if q == v.len() {
        return Err(AuthError::AuthorizationDenied);
    }
    let mut p: usize = q + 1;
    loop
        invariant
            q + 1 <= p <= v@.len(),
            v@ == redirect@,
            q == find_char(v@, 0, '?'),
            (q as int) < v@.len(),
            code_in_params(v@, q as int + 1) == code_in_params(v@, p as int),
        decreases v@.len() - p,
    {
        let e = scan_to(&v, p, '&');
        let eqr = scan_to(&v, p, '=');
        let eq = if eqr < e {
            eqr
        } else {
            e
        };
        let is_code = eq - p == 4 && v[p] == 'c' && v[p + 1] == 'o' && v[p + 2] == 'd' && v[p + 3]
            == 'e';
        if is_code {
            proof {
                reveal_strlit("code");
                assert(v@.subrange(p as int, eq as int) =~= "code"@);
            }
            let value: Vec<char> = if eq < e {
                copy_range(&v, eq + 1, e)
            } else {
                Vec::new()
            };
            proof {
                if eq >= e {
                    assert(value@ =~= Seq::<char>::empty());
                }
            }
            return Ok(string_from_chars(&value));
        }
        proof {
            reveal_strlit("code");
            if v@.subrange(p as int, eq as int) == "code"@ {
                assert(v@.subrange(p as int, eq as int).len() == eq - p);
                assert(eq - p == 4);
                assert(v@.subrange(p as int, eq as int)[0] == 'c');
                assert(v@.subrange(p as int, eq as int)[1] == 'o');
                assert(v@.subrange(p as int, eq as int)[2] == 'd');
                assert(v@.subrange(p as int, eq as int)[3] == 'e');
                assert(false);
            }
        }
        if e == v.len() {
            return Err(AuthError::AuthorizationDenied);
        }
        p = e + 1;
    }
}

} // verus!
