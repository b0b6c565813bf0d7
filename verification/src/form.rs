use vstd::prelude::*;

use crate::errors::RelayError;

verus! {

/// Whether the bytes are valid UTF-8; the answer depends on the bytes alone.
pub uninterp spec fn utf8_valid(s: Seq<u8>) -> bool;

/// Relies on std's `core::str::from_utf8`: it accepts a byte slice exactly
/// when the bytes are valid UTF-8.
#[verifier::external_body]
fn check_utf8(b: &Vec<u8>) -> (r: bool)
    ensures
        r == utf8_valid(b@),
{
    core::str::from_utf8(b.as_slice()).is_ok()
}

/// An ASCII hexadecimal digit, either case.
pub open spec fn is_hex_digit(b: u8) -> bool {
    (0x30 <= b <= 0x39) || (0x41 <= b <= 0x46) || (0x61 <= b <= 0x66)
}

/// The value of a hexadecimal digit.
pub open spec fn hex_value(b: u8) -> u8
    recommends
        is_hex_digit(b),
{
    if 0x30 <= b <= 0x39 {
        (b - 0x30) as u8
    } else if 0x41 <= b <= 0x46 {
        (b - 0x37) as u8
    } else {
        (b - 0x57) as u8
    }
}

fn hex_digit(b: u8) -> (r: bool)
    ensures
        r == is_hex_digit(b),
{
    (0x30 <= b && b <= 0x39) || (0x41 <= b && b <= 0x46) || (0x61 <= b && b <= 0x66)
}

fn hex_val(b: u8) -> (r: u8)
    requires
        is_hex_digit(b),
    ensures
        r == hex_value(b),
        r <= 15,
{
    if b <= 0x39 {
        b - 0x30
    } else if b <= 0x46 {
        b - 0x37
    } else {
        b - 0x57
    }
}

/// Form decoding first turns every `+` into a space.
pub open spec fn plus_to_space(s: Seq<u8>) -> Seq<u8> {
    s.map_values(|b: u8| if b == 0x2b { 0x20u8 } else { b })
}

/// Percent decoding: `%` followed by two hexadecimal digits becomes the
/// named byte; any other `%` stays literal.
pub open spec fn percent_decode(s: Seq<u8>) -> Seq<u8>
    decreases s.len(),
{
    if s.len() == 0 {
        Seq::empty()
    } else if s[0] == 0x25 && s.len() >= 3 && is_hex_digit(s[1]) && is_hex_digit(s[2]) {
        seq![(hex_value(s[1]) as int * 16 + hex_value(s[2]) as int) as u8] + percent_decode(
            s.skip(3),
        )
    } else {
        seq![s[0]] + percent_decode(s.skip(1))
    }
}

/// Full decoding of one form token: `+` to space, then percent decoding.
pub open spec fn unquote_plus_spec(s: Seq<u8>) -> Seq<u8> {
    percent_decode(plus_to_space(s))
}

/// Decodes one form token: replaces `+` with spaces and resolves `%xx`
/// escapes, leaving malformed escapes literal.
pub fn unquote_plus(s: &Vec<u8>) -> (r: Vec<u8>)
    ensures
        r@ == unquote_plus_spec(s@),
        r@.len() <= s@.len(),
{
    let mut t: Vec<u8> = Vec::new();
    let mut i: usize = 0;
    while i < s.len()
        invariant
            i <= s@.len(),
            t@ == plus_to_space(s@).take(i as int),
        decreases s@.len() - i,
    {
        if s[i] == 0x2b {
            t.push(0x20);
        } else {
            t.push(s[i]);
        }
        assert(t@ =~= plus_to_space(s@).take(i as int + 1));
        i += 1;
    }
    assert(t@ =~= plus_to_space(s@));
    let mut out: Vec<u8> = Vec::new();
    let mut j: usize = 0;
    while j < t.len()
        invariant
            j <= t@.len(),
            out@.len() <= j,
            percent_decode(t@) == out@ + percent_decode(t@.skip(j as int)),
        decreases t@.len() - j,
    {
        let ghost rest = t@.skip(j as int);
        let ghost out_old = out@;
        assert(rest.len() == t@.len() - j);
        assert(rest[0] == t@[j as int]);
        if t[j] == 0x25 && t.len() - j > 2 && hex_digit(t[j + 1]) && hex_digit(t[j + 2]) {
            assert(rest[1] == t@[j + 1] && rest[2] == t@[j + 2]);
            let b = hex_val(t[j + 1]) * 16 + hex_val(t[j + 2]);
            out.push(b);
            proof {
                assert(rest.skip(3) =~= t@.skip(j as int + 3));
                assert(percent_decode(rest) == seq![b] + percent_decode(rest.skip(3)));
                assert(out@ + percent_decode(t@.skip(j as int + 3)) =~= out_old + (seq![b]
                    + percent_decode(t@.skip(j as int + 3))));
            }
            j += 3;
        } else {
            out.push(t[j]);
            proof {
                if rest.len() >= 3 {
                    assert(rest[1] == t@[j + 1] && rest[2] == t@[j + 2]);
                }
                assert(percent_decode(rest) == seq![rest[0]] + percent_decode(rest.skip(1)));
                assert(rest.skip(1) =~= t@.skip(j as int + 1));
                assert(out@ + percent_decode(t@.skip(j as int + 1)) =~= out_old + (seq![rest[0]]
                    + percent_decode(t@.skip(j as int + 1))));
            }
            j += 1;
        }
    }
    assert(t@.skip(t@.len() as int) =~= Seq::<u8>::empty());
    assert(out@ =~= percent_decode(t@));
    out
}

/// A pair separator: `&` or `;`.
pub open spec fn is_sep(b: u8) -> bool {
    b == 0x26 || b == 0x3b
}

/// The first index at which `p` holds, or the length when it never does.
pub open spec fn scan(s: Seq<u8>, p: spec_fn(u8) -> bool) -> nat
    decreases s.len(),
{
    if s.len() == 0 {
        0
    } else if p(s[0]) {
        0
    } else {
        (1 + scan(s.drop_first(), p)) as nat
    }
}

/// A scan is pinned by its characterization: nothing matches before `i`, and
/// `i` matches unless it is the length.
pub proof fn lemma_scan_is(s: Seq<u8>, p: spec_fn(u8) -> bool, i: int)
    requires
        0 <= i <= s.len(),
        forall|j: int| 0 <= j < i ==> !p(s[j]),
        i < s.len() ==> p(s[i]),
    ensures
        scan(s, p) == i,
    decreases s.len(),
{
    if s.len() == 0 {
    } else if p(s[0]) {
        assert(i == 0);
    } else {
        assert(i >= 1) by {
            if i == 0 {
                assert(p(s[0]));
            }
        }
        assert(forall|j: int| 0 <= j < i - 1 ==> s.drop_first()[j] == s[j + 1] && !p(
            s.drop_first()[j],
        ));
        assert(i - 1 < s.drop_first().len() ==> p(s.drop_first()[i - 1]));
        lemma_scan_is(s.drop_first(), p, i - 1);
    }
}

/// The position of the first `=` in a raw pair.
pub open spec fn first_eq(s: Seq<u8>) -> nat {
    scan(s, |b: u8| b == 0x3d)
}

/// The position of the first byte that is not `=`: the raw value starts
/// there, leading `=` signs being trimmed.
pub open spec fn value_start(s: Seq<u8>) -> nat {
    scan(s, |b: u8| b != 0x3d)
}

/// The position of the first pair separator.
pub open spec fn first_sep(s: Seq<u8>) -> nat {
    scan(s, |b: u8| is_sep(b))
}

/// The decoded key and value a raw pair contributes, if any: the pair needs
/// an `=`, both sides must decode to valid UTF-8, and the decoded value must
/// be non-empty.
pub open spec fn item_pair(item: Seq<u8>) -> Option<(Seq<u8>, Seq<u8>)> {
    let e = first_eq(item);
    if e == item.len() {
        None
    } else {
        let rest = item.skip(e as int);
        let k = unquote_plus_spec(item.take(e as int));
        let v = unquote_plus_spec(rest.skip(value_start(rest) as int));
        if utf8_valid(k) && utf8_valid(v) && v.len() > 0 {
            Some((k, v))
        } else {
            None
        }
    }
}

/// The value a raw pair contributes under the given key.
pub open spec fn item_value(item: Seq<u8>, key: Seq<u8>) -> Option<Seq<u8>> {
    match item_pair(item) {
        Some(p) => if p.0 == key {
            Some(p.1)
        } else {
            None
        },
        None => None,
    }
}

/// The first value a form body carries under the given key, scanning pairs
/// left to right.
pub open spec fn first_val(s: Seq<u8>, key: Seq<u8>) -> Option<Seq<u8>>
    decreases s.len(),
{
    let i = first_sep(s);
    if i > s.len() {
        None
    } else if item_value(s.take(i as int), key) is Some {
        item_value(s.take(i as int), key)
    } else if i == s.len() {
        None
    } else {
        first_val(s.skip(i as int + 1), key)
    }
}

/// One step of the left-to-right pair scan, for a segment known to run from
/// `pos` to the next separator at `end`.
pub proof fn lemma_first_val_step(s: Seq<u8>, pos: int, end: int, key: Seq<u8>)
    requires
        0 <= pos <= end <= s.len(),
        first_sep(s.skip(pos)) == end - pos,
    ensures
        item_value(s.subrange(pos, end), key) is Some ==> first_val(s.skip(pos), key)
            == item_value(s.subrange(pos, end), key),
        item_value(s.subrange(pos, end), key) is None && end == s.len() ==> first_val(
            s.skip(pos),
            key,
        ) is None,
        item_value(s.subrange(pos, end), key) is None && end < s.len() ==> first_val(
            s.skip(pos),
            key,
        ) == first_val(s.skip(end + 1), key),
{
    let t = s.skip(pos);
    assert(t.take(end - pos) =~= s.subrange(pos, end));
    if end < s.len() {
        assert(t.skip(end - pos + 1) =~= s.skip(end + 1));
    }
}

/// The "api" key.
pub open spec fn key_api() -> Seq<u8> {
    seq![0x61u8, 0x70u8, 0x69u8]
}

/// The "app" key.
pub open spec fn key_app() -> Seq<u8> {
    seq![0x61u8, 0x70u8, 0x70u8]
}

/// The "env" key.
pub open spec fn key_env() -> Seq<u8> {
    seq![0x65u8, 0x6eu8, 0x76u8]
}

/// The "data" key.
pub open spec fn key_data() -> Seq<u8> {
    seq![0x64u8, 0x61u8, 0x74u8, 0x61u8]
}

/// The four fields a submission body yields: the body must be valid UTF-8
/// and carry a first value under each of the keys `api`, `app`, `env` and
/// `data`; the result is those values in that order.
pub open spec fn spec_extract(body: Seq<u8>) -> Option<(Seq<u8>, Seq<u8>, Seq<u8>, Seq<u8>)> {
    if !utf8_valid(body) {
        None
    } else {
        match (
            first_val(body, key_api()),
            first_val(body, key_app()),
            first_val(body, key_env()),
            first_val(body, key_data()),
        ) {
            (Some(api), Some(app), Some(env), Some(data)) => Some((api, app, env, data)),
            _ => None,
        }
    }
}

/// Whether two byte buffers hold the same bytes.
pub fn bytes_eq(a: &Vec<u8>, b: &Vec<u8>) -> (r: bool)
    ensures
        r == (a@ == b@),
{
    if a.len() != b.len() {
        return false;
    }
    let mut i: usize = 0;
    while i < a.len()
        invariant
            i <= a@.len(),
            a@.len() == b@.len(),
            forall|j: int| 0 <= j < i ==> a@[j] == b@[j],
        decreases a@.len() - i,
    {
        if a[i] != b[i] {
            return false;
        }
        i += 1;
    }
    assert(a@ =~= b@);
    true
}

/// Splits one raw pair into its decoded key and value, when it contributes
/// one.
fn split_item(item: &Vec<u8>) -> (r: Option<(Vec<u8>, Vec<u8>)>)
    ensures
        r is Some <==> item_pair(item@) is Some,
        r matches Some(p) ==> item_pair(item@) == Some((p.0@, p.1@)) && p.1@.len() <= item@.len(),
{
    let n = item.len();
    let mut e: usize = 0;
    while e < n && item[e] != 0x3d
        invariant
            e <= n == item@.len(),
            forall|j: int| 0 <= j < e ==> item@[j] != 0x3d,
        decreases n - e,
    {
        e += 1;
    }
    proof {
        lemma_scan_is(item@, |b: u8| b == 0x3d, e as int);
    }
    if e == n {
        return None;
    }
    let mut vs: usize = e;
    while vs < n && item[vs] == 0x3d
        invariant
            e <= vs <= n == item@.len(),
            forall|j: int| e <= j < vs ==> item@[j] == 0x3d,
        decreases n - vs,
    {
        vs += 1;
    }
    let ghost rest = item@.skip(e as int);
    proof {
        assert(forall|j: int| 0 <= j < vs - e ==> rest[j] == item@[j + e]);
        lemma_scan_is(rest, |b: u8| b != 0x3d, vs - e);
        assert(rest.skip(vs - e) =~= item@.subrange(vs as int, n as int));
    }
    let raw_key = crate::frame::copy_range(item, 0, e);
    let raw_val = crate::frame::copy_range(item, vs, n);
    assert(raw_key@ =~= item@.take(e as int));
    let key = unquote_plus(&raw_key);
    let val = unquote_plus(&raw_val);
    if !check_utf8(&key) {
        return None;
    }
    if !check_utf8(&val) {
        return None;
    }
    if val.len() == 0 {
        return None;
    }
    Some((key, val))
}

/// The four field values of one submission, as plain bytes.
pub struct Submission {
    pub api: Vec<u8>,
    pub app: Vec<u8>,
    pub env: Vec<u8>,
    pub data: Vec<u8>,
}

/// Extracts the four required fields from a form-encoded submission body.
///
/// Succeeds exactly when the body is valid UTF-8 and carries each of the
/// keys `api`, `app`, `env` and `data` with a non-empty decoded value; the
/// first value wins when a key repeats. Anything else is a
/// `MalformedRequest`.
pub fn extract_fields(body: &Vec<u8>) -> (r: Result<Submission, RelayError>)
    ensures
        r is Ok <==> spec_extract(body@) is Some,
        r matches Ok(sub) ==> spec_extract(body@) == Some(
            (sub.api@, sub.app@, sub.env@, sub.data@),
        ) && sub.data@.len() <= body@.len(),
        r matches Err(e) ==> e == RelayError::MalformedRequest,
{
    if !check_utf8(body) {
        return Err(RelayError::MalformedRequest);
    }
    let key_api_x: Vec<u8> = vec![0x61, 0x70, 0x69];
    let key_app_x: Vec<u8> = vec![0x61, 0x70, 0x70];
    let key_env_x: Vec<u8> = vec![0x65, 0x6e, 0x76];
    let key_data_x: Vec<u8> = vec![0x64, 0x61, 0x74, 0x61];
    assert(key_api_x@ =~= key_api());
    assert(key_app_x@ =~= key_app());
    assert(key_env_x@ =~= key_env());
    assert(key_data_x@ =~= key_data());
    let mut api_v: Option<Vec<u8>> = None;
    let mut app_v: Option<Vec<u8>> = None;
    let mut env_v: Option<Vec<u8>> = None;
    let mut data_v: Option<Vec<u8>> = None;
    let n = body.len();
    let mut pos: usize = 0;
    assert(body@.skip(0) =~= body@);
    loop
        invariant
            pos <= n == body@.len(),
            key_api_x@ == key_api() && key_app_x@ == key_app() && key_env_x@ == key_env()
                && key_data_x@ == key_data(),
            api_v matches Some(v) ==> first_val(body@, key_api()) == Some(v@),
            api_v is None ==> first_val(body@, key_api()) == first_val(
                body@.skip(pos as int),
                key_api(),
            ),
            app_v matches Some(v) ==> first_val(body@, key_app()) == Some(v@),
            app_v is None ==> first_val(body@, key_app()) == first_val(
                body@.skip(pos as int),
                key_app(),
            ),
            env_v matches Some(v) ==> first_val(body@, key_env()) == Some(v@),
            env_v is None ==> first_val(body@, key_env()) == first_val(
                body@.skip(pos as int),
                key_env(),
            ),
            data_v matches Some(v) ==> first_val(body@, key_data()) == Some(v@) && v@.len()
                <= body@.len(),
            data_v is None ==> first_val(body@, key_data()) == first_val(
                body@.skip(pos as int),
                key_data(),
            ),
        ensures
            api_v matches Some(v) ==> first_val(body@, key_api()) == Some(v@),
            api_v is None ==> first_val(body@, key_api()) is None,
            app_v matches Some(v) ==> first_val(body@, key_app()) == Some(v@),
            app_v is None ==> first_val(body@, key_app()) is None,
            env_v matches Some(v) ==> first_val(body@, key_env()) == Some(v@),
            env_v is None ==> first_val(body@, key_env()) is None,
            data_v matches Some(v) ==> first_val(body@, key_data()) == Some(v@) && v@.len()
                <= body@.len(),
            data_v is None ==> first_val(body@, key_data()) is None,
        decreases n - pos + 1,
    {
        let mut end: usize = pos;
        while end < n && !(body[end] == 0x26 || body[end] == 0x3b)
            invariant
                pos <= end <= n == body@.len(),
                forall|j: int| pos <= j < end ==> !is_sep(body@[j]),
            decreases n - end,
        {
            end += 1;
        }
        let ghost restb = body@.skip(pos as int);
        proof {
            assert(forall|j: int| 0 <= j < end - pos ==> restb[j] == body@[j + pos]);
            lemma_scan_is(restb, |b: u8| is_sep(b), end - pos);
            assert(first_sep(restb) == end - pos);
        }
        let item = crate::frame::copy_range(body, pos, end);
        let ghost item_s = body@.subrange(pos as int, end as int);
        proof {
            lemma_first_val_step(body@, pos as int, end as int, key_api());
            lemma_first_val_step(body@, pos as int, end as int, key_app());
            lemma_first_val_step(body@, pos as int, end as int, key_env());
            lemma_first_val_step(body@, pos as int, end as int, key_data());
        }
        match split_item(&item) {
            Some(kv) => {
                let (k, v) = kv;
                assert(item_pair(item_s) == Some((k@, v@)));
                if api_v.is_none() && bytes_eq(&k, &key_api_x) {
                    api_v = Some(v);
                } else if app_v.is_none() && bytes_eq(&k, &key_app_x) {
                    app_v = Some(v);
                } else if env_v.is_none() && bytes_eq(&k, &key_env_x) {
                    env_v = Some(v);
                } else if data_v.is_none() && bytes_eq(&k, &key_data_x) {
                    assert(v@.len() <= item_s.len() <= body@.len());
                    data_v = Some(v);
                }
            },
            None => {
                assert(item_pair(item_s) is None);
            },
        }
        if end == n {
            break ;
        }
        pos = end + 1;
    }
    match (api_v, app_v, env_v, data_v) {
        (Some(api), Some(app), Some(env), Some(data)) => Ok(
            Submission { api, app, env, data },
        ),
        _ => Err(RelayError::MalformedRequest),
    }
}

} // verus!
