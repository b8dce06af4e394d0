use vstd::prelude::*;
use vstd::string::StringExecFns;
use crate::text::{
    chars_of, digit_end, digits_val, digits_value, find_char, lemma_digit_end, lemma_find_char,
    range_eq_str, scan_digits, scan_find_char, string_of_range, subvec,
};

verus! {

/// What an endpoint names: one piece of content, or a whole channel.
#[derive(Debug, Clone, PartialEq)]
pub enum EndpointType {
    Content(i64),
    Channel(String),
}

/// The mathematical shadow of `EndpointType`.
pub enum EndpointV {
    Content(int),
    Channel(Seq<char>),
}

impl View for EndpointType {
    type V = EndpointV;

    open spec fn view(&self) -> EndpointV {
        match self {
            EndpointType::Content(id) => EndpointV::Content(*id as int),
            EndpointType::Channel(name) => EndpointV::Channel(name@),
        }
    }
}

pub open spec fn starts_with_txt(s: Seq<char>, p: Seq<char>) -> bool {
    s.len() >= p.len() && s.subrange(0, p.len() as int) == p
}

/// True exactly when `v` begins with the characters of `lit`.
fn str_starts(v: &Vec<char>, lit: &str) -> (r: bool)
    ensures
        r == starts_with_txt(v@, lit@),
{
    let n = lit.unicode_len();
    if v.len() < n {
        return false;
    }
    range_eq_str(v, 0, n, lit)
}

/// An endpoint with its protocol made explicit: full URLs and relative paths
/// pass through; a bare address gets `http://` when its host is localhost,
/// `https://` otherwise.
pub open spec fn spec_add_protocol(s: Seq<char>) -> Seq<char> {
    if starts_with_txt(s, "http://"@) || starts_with_txt(s, "https://"@) {
        s
    } else if s.len() > 0 && s[0] == '/' {
        s
    } else if starts_with_txt(s, "content/"@) || starts_with_txt(s, "channel/"@) {
        s
    } else {
        let host = s.subrange(0, find_char(s, 0, '/'));
        if starts_with_txt(host, "localhost"@) {
            "http://"@ + s
        } else {
            "https://"@ + s
        }
    }
}

/// Makes an endpoint's protocol explicit, exactly as `spec_add_protocol`
/// describes.
pub fn add_protocol_if_missing(endpoint: &str) -> (r: String)
    ensures
        r@ == spec_add_protocol(endpoint@),
{
    let v = chars_of(endpoint);
    if str_starts(&v, "http://") || str_starts(&v, "https://") {
        return endpoint.to_owned();
    }
    if v.len() > 0 && v[0] == '/' {
        return endpoint.to_owned();
    }
    if str_starts(&v, "content/") || str_starts(&v, "channel/") {
        return endpoint.to_owned();
    }
    let sl = scan_find_char(&v, 0, '/');
    let ghost host = v@.subrange(0, find_char(v@, 0, '/'));
    let is_local = sl >= 9 && range_eq_str(&v, 0, 9, "localhost");
    proof {
        reveal_strlit("localhost");
        if sl >= 9 {
            assert(host.subrange(0, 9) =~= v@.subrange(0, 9));
        }
        assert(is_local == starts_with_txt(host, "localhost"@));
    }
    let mut r = String::from_str(
        if is_local {
            "http://"
        } else {
            "https://"
        },
    );
    r.append(endpoint);
    r
}

/// A signed decimal integer within `i64` range.
pub open spec fn spec_parse_i64(t: Seq<char>) -> Option<int> {
    let b: int = if t.len() > 0 && (t[0] == '-' || t[0] == '+') {
        1
    } else {
        0
    };
    if digit_end(t, b) == t.len() && t.len() > b {
        let mag = digits_val(t.subrange(b, t.len() as int));
        if b == 1 && t[0] == '-' {
            if mag <= 0x8000000000000000 {
                Option::Some(-mag)
            } else {
                Option::None
            }
        } else {
            if mag <= 0x7FFFFFFFFFFFFFFF {
                Option::Some(mag)
            } else {
                Option::None
            }
        }
    } else {
        Option::None
    }
}

/// Reads a signed decimal integer, exactly as `spec_parse_i64` describes.
fn parse_i64_chars(v: &Vec<char>) -> (r: Option<i64>)
    ensures
        match spec_parse_i64(v@) {
            Option::Some(x) => r matches Some(y) && y as int == x,
            Option::None => r is None,
        },
{
    let n = v.len();
    let b: usize = if n > 0 && (v[0] == '-' || v[0] == '+') {
        1
    } else {
        0
    };
    proof {
        lemma_digit_end(v@, b as int);
    }
    let d = scan_digits(v, b);
    if !(d == n && n > b) {
        return None;
    }
    let mag = digits_value(v, b, n);
    proof {
        assert(v@.subrange(b as int, n as int) =~= v@.subrange(b as int, v@.len() as int));
        assert(crate::text::DIGIT_CAP == 0xFFFFFFFFFFFFFFFF);
    }
    if b == 1 && v[0] == '-' {
        if mag > 0x8000000000000000 {
            return None;
        }
        if mag == 0x8000000000000000 {
            Some(i64::MIN)
        } else {
            Some(-(mag as i64))
        }
    } else {
        if mag > 0x7FFFFFFFFFFFFFFF {
            return None;
        }
        Some(mag as i64)
    }
}

/// A path of exactly two pieces around one `/`.
pub open spec fn spec_path_parts(p: Seq<char>) -> Option<(Seq<char>, Seq<char>)> {
    let c1 = find_char(p, 0, '/');
    if c1 < p.len() && find_char(p, c1 + 1, '/') == p.len() {
        Option::Some((p.subrange(0, c1), p.subrange(c1 + 1, p.len() as int)))
    } else {
        Option::None
    }
}

/// The first index whose character is not `/`.
pub open spec fn skip_slashes(s: Seq<char>, from: int) -> int
    decreases s.len() - from,
{
    if from < 0 || from >= s.len() || s[from] != '/' {
        from
    } else {
        skip_slashes(s, from + 1)
    }
}

/// What `content/<x>` or `channel/<x>` names; errors carry the message text.
pub open spec fn spec_endpoint_of(p0: Seq<char>, p1: Seq<char>) -> Result<EndpointV, Seq<char>> {
    if p0 == "content"@ {
        match spec_parse_i64(p1) {
            Option::Some(id) => Result::Ok(EndpointV::Content(id)),
            Option::None => Result::Err("Invalid content ID: "@ + p1),
        }
    } else if p0 == "channel"@ {
        Result::Ok(EndpointV::Channel(p1))
    } else {
        Result::Err("Unknown endpoint type: "@ + p0 + ". Expected 'content' or 'channel'"@)
    }
}

/// An endpoint, resolved: an optional explicit server, and what to fetch.
/// A full URL carries its server; a relative path leaves the server to the
/// configuration.
pub open spec fn spec_parse_endpoint(s: Seq<char>) -> Result<
    (Option<Seq<char>>, EndpointV),
    Seq<char>,
> {
    let w = spec_add_protocol(s);
    if starts_with_txt(w, "http://"@) || starts_with_txt(w, "https://"@) {
        let s1 = find_char(w, 0, '/');
        let s2 = find_char(w, s1 + 1, '/');
        let s3 = find_char(w, s2 + 1, '/');
        if s3 >= w.len() {
            Result::Err("Invalid URL format: "@ + s)
        } else {
            let server = w.subrange(0, s1) + "//"@ + w.subrange(s2 + 1, s3);
            let path = w.subrange(s3 + 1, w.len() as int);
            match spec_path_parts(path) {
                Option::None => Result::Err(
                    "Invalid endpoint path in URL: "@ + path
                        + ". Expected content/<id> or channel/<identifier>"@,
                ),
                Option::Some(pp) => match spec_endpoint_of(pp.0, pp.1) {
                    Result::Ok(e) => Result::Ok((Option::Some(server), e)),
                    Result::Err(m) => Result::Err(m),
                },
            }
        }
    } else {
        let rel = w.subrange(skip_slashes(w, 0), w.len() as int);
        match spec_path_parts(rel) {
            Option::None => Result::Err(
                "Invalid endpoint format: "@ + s
                    + ". Expected /content/<id> or /channel/<identifier>"@,
            ),
            Option::Some(pp) => match spec_endpoint_of(pp.0, pp.1) {
                Result::Ok(e) => Result::Ok((Option::None, e)),
                Result::Err(m) => Result::Err(m),
            },
        }
    }
}

/// Resolves the two-piece tail of an endpoint.
fn endpoint_of(parts: &Vec<char>, c1: usize) -> (r: Result<EndpointType, String>)
    requires
        c1 < parts@.len(),
    ensures
        ({
            let p0 = parts@.subrange(0, c1 as int);
            let p1 = parts@.subrange(c1 as int + 1, parts@.len() as int);
            match spec_endpoint_of(p0, p1) {
                Result::Ok(e) => r matches Ok(x) && x@ == e,
                Result::Err(m) => r matches Err(s) && s@ == m,
            }
        }),
{
    let n = parts.len();
    let p1 = subvec(parts, c1 + 1, n);
    if range_eq_str(parts, 0, c1, "content") {
        match parse_i64_chars(&p1) {
            Some(id) => Ok(EndpointType::Content(id)),
            None => {
                let mut m = String::from_str("Invalid content ID: ");
                let p1s = string_of_range(parts, c1 + 1, n);
                m.append(p1s.as_str());
                Err(m)
            },
        }
    } else if range_eq_str(parts, 0, c1, "channel") {
        Ok(EndpointType::Channel(string_of_range(parts, c1 + 1, n)))
    } else {
        let mut m = String::from_str("Unknown endpoint type: ");
        let p0s = string_of_range(parts, 0, c1);
        m.append(p0s.as_str());
        m.append(". Expected 'content' or 'channel'");
        Err(m)
    }
}

/// Resolves an endpoint argument: adds the protocol when one is missing,
/// then reads either a full URL (whose server is returned) or a relative
/// path, each of which must end in `content/<id>` or `channel/<name>`.
pub fn parse_endpoint(endpoint: &str) -> (r: Result<(Option<String>, EndpointType), String>)
    ensures
        match spec_parse_endpoint(endpoint@) {
            Result::Ok(pair) => r matches Ok(p) && (match (p.0, pair.0) {
                (Option::Some(a), Option::Some(b)) => a@ == b,
                (Option::None, Option::None) => true,
                _ => false,
            }) && p.1@ == pair.1,
            Result::Err(m) => r matches Err(s) && s@ == m,
        },
{
    let w_str = add_protocol_if_missing(endpoint);
    let w = chars_of(w_str.as_str());
    let ghost ws = spec_add_protocol(endpoint@);
    let n = w.len();
    if str_starts(&w, "http://") || str_starts(&w, "https://") {
        let s1 = scan_find_char(&w, 0, '/');
        proof {
            lemma_find_char(w@, 0, '/');
        }
        let s2 = scan_find_char(&w, if s1 < n {
            s1 + 1
        } else {
            n
        }, '/');
        proof {
            if s1 >= n {
                assert(find_char(w@, s1 as int + 1, '/') == n);
            } else {
                lemma_find_char(w@, s1 as int + 1, '/');
            }
            assert(s2 == find_char(w@, s1 as int + 1, '/'));
        }
        let s3 = scan_find_char(&w, if s2 < n {
            s2 + 1
        } else {
            n
        }, '/');
        proof {
            if s2 >= n {
                assert(find_char(w@, s2 as int + 1, '/') == n);
            } else {
                lemma_find_char(w@, s2 as int + 1, '/');
            }
            assert(s3 == find_char(w@, s2 as int + 1, '/'));
        }
        if s3 >= n {
            let mut m = String::from_str("Invalid URL format: ");
            m.append(endpoint);
            return Err(m);
        }
        let mut server = string_of_range(&w, 0, s1);
        server.append("//");
        let host = string_of_range(&w, s2 + 1, s3);
        server.append(host.as_str());
        let path = subvec(&w, s3 + 1, n);
        let c1 = scan_find_char(&path, 0, '/');
        proof {
            lemma_find_char(path@, 0, '/');
        }
        let two_parts = c1 < path.len() && {
            let c2 = scan_find_char(&path, c1 + 1, '/');
            c2 == path.len()
        };
        if !two_parts {
            let mut m = String::from_str("Invalid endpoint path in URL: ");
            let ps = string_of_range(&w, s3 + 1, n);
            m.append(ps.as_str());
            m.append(". Expected content/<id> or channel/<identifier>");
            return Err(m);
        }
        match endpoint_of(&path, c1) {
            Ok(e) => Ok((Some(server), e)),
            Err(m) => Err(m),
        }
    } else {
        let mut b: usize = 0;
        while b < w.len() && w[b] == '/'
            invariant
                b <= w@.len(),
                skip_slashes(w@, 0) == skip_slashes(w@, b as int),
            decreases w@.len() - b,
        {
            b = b + 1;
        }
        proof {
            assert(skip_slashes(w@, b as int) == b);
        }
        let rel = subvec(&w, b, n);
        let c1 = scan_find_char(&rel, 0, '/');
        proof {
            lemma_find_char(rel@, 0, '/');
        }
        let two_parts = c1 < rel.len() && {
            let c2 = scan_find_char(&rel, c1 + 1, '/');
            c2 == rel.len()
        };
        if !two_parts {
            let mut m = String::from_str("Invalid endpoint format: ");
            m.append(endpoint);
            m.append(". Expected /content/<id> or /channel/<identifier>");
            return Err(m);
        }
        match endpoint_of(&rel, c1) {
            Ok(e) => Ok((None, e)),
            Err(m) => Err(m),
        }
    }
}

} // verus!
