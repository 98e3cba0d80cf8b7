//! The payment-provider protocol adapter: the provider's signature scheme,
//! the outbound checkout-session request, and the interpretation of the
//! provider's response.
//!
//! The signature scheme, used both to sign outbound requests and to verify
//! inbound callbacks: sort all relevant fields by key ascending, drop
//! empty-string values, prepend the shared secret, join with `|`, hash with
//! SHA-1, hex-encode in lower case.

use vstd::prelude::*;

use crate::errors::AppError;
use crate::text::{lex_le, spec_dec_digits, spec_lex_le, str_eq, u64_to_string};

verus! {

/// The SHA-1 digest of a string's UTF-8 encoding: 20 bytes, a function of
/// the characters alone.
pub uninterp spec fn sha1_of(s: Seq<char>) -> Seq<u8>;

/// Relies on `sha1::Sha1` (through the `digest::Digest` front end) for the
/// SHA-1 digest of the string's UTF-8 bytes; the output size is fixed at 20
/// bytes.
#[verifier::external_body]
fn sha1_digest(s: &str) -> (r: Vec<u8>)
    ensures
        r@ == sha1_of(s@),
        r@.len() == 20,
{
    <sha1::Sha1 as sha1::Digest>::digest(s.as_bytes()).to_vec()
}

/// The lower-case hex character for a value below 16.
pub open spec fn spec_hex_char(d: int) -> char {
    "0123456789abcdef"@[d]
}

/// Lower-case hex encoding of a byte sequence, two digits per byte.
pub open spec fn spec_hex_lower(data: Seq<u8>) -> Seq<char>
    decreases data.len(),
{
    if data.len() == 0 {
        Seq::empty()
    } else {
        spec_hex_lower(data.drop_last()) + seq![
            spec_hex_char(data.last() as int / 16),
            spec_hex_char(data.last() as int % 16),
        ]
    }
}

/// Hex-encodes a byte vector in lower case.
pub fn hex_lower(data: &Vec<u8>) -> (r: String)
    ensures
        r@ == spec_hex_lower(data@),
{
    let alphabet = "0123456789abcdef";
    proof {
        reveal_strlit("0123456789abcdef");
    }
    let n = data.len();
    let mut r = String::new();
    let mut i: usize = 0;
    assert(data@.take(0) =~= Seq::<u8>::empty());
    while i < n
        invariant
            n == data@.len(),
            0 <= i <= n,
            alphabet@.len() == 16,
            alphabet@ == "0123456789abcdef"@,
            r@ == spec_hex_lower(data@.take(i as int)),
        decreases n - i,
    {
        let b = data[i];
        let hi = (b / 16) as usize;
        let lo = (b % 16) as usize;
        let hi_s = alphabet.substring_char(hi, hi + 1);
        let lo_s = alphabet.substring_char(lo, lo + 1);
        assert(hi_s@ =~= seq![spec_hex_char(b as int / 16)]);
        assert(lo_s@ =~= seq![spec_hex_char(b as int % 16)]);
        r.append(hi_s);
        r.append(lo_s);
        proof {
            assert(data@.take(i + 1).drop_last() =~= data@.take(i as int));
            assert(data@.take(i + 1).last() == data@[i as int]);
        }
        i += 1;
    }
    assert(data@.take(n as int) =~= data@);
    r
}

/// The views of a list of key-value fields.
pub open spec fn spec_pair_views(params: Seq<(String, String)>) -> Seq<(Seq<char>, Seq<char>)> {
    params.map_values(|p: (String, String)| (p.0@, p.1@))
}

/// Inserts a field into a key-sorted field list, before the first key it
/// compares less-or-equal to.
pub open spec fn spec_insert_pair(
    p: (Seq<char>, Seq<char>),
    s: Seq<(Seq<char>, Seq<char>)>,
) -> Seq<(Seq<char>, Seq<char>)>
    decreases s.len(),
{
    if s.len() == 0 {
        seq![p]
    } else if spec_lex_le(p.0, s.first().0) {
        seq![p] + s
    } else {
        seq![s.first()] + spec_insert_pair(p, s.drop_first())
    }
}

/// Insertion sort of a field list by key, ascending.
pub open spec fn spec_sort_pairs(s: Seq<(Seq<char>, Seq<char>)>) -> Seq<(Seq<char>, Seq<char>)>
    decreases s.len(),
{
    if s.len() == 0 {
        Seq::empty()
    } else {
        spec_insert_pair(s.first(), spec_sort_pairs(s.drop_first()))
    }
}

/// Inserting before the first key that is not strictly smaller lands the
/// field at exactly that position.
proof fn lemma_insert_at(
    p: (Seq<char>, Seq<char>),
    s: Seq<(Seq<char>, Seq<char>)>,
    j: int,
)
    requires
        0 <= j <= s.len(),
        forall|k: int| 0 <= k < j ==> !spec_lex_le(p.0, (#[trigger] s[k]).0),
        j < s.len() ==> spec_lex_le(p.0, s[j].0),
    ensures
        spec_insert_pair(p, s) == s.take(j) + seq![p] + s.skip(j),
    decreases s.len(),
{
    if s.len() == 0 {
        assert(spec_insert_pair(p, s) =~= s.take(j) + seq![p] + s.skip(j));
    } else if j == 0 {
        assert(spec_insert_pair(p, s) =~= s.take(0) + seq![p] + s.skip(0));
    } else {
        lemma_insert_at(p, s.drop_first(), j - 1);
        assert(s.drop_first().take(j - 1) =~= s.take(j).drop_first());
        assert(s.drop_first().skip(j - 1) =~= s.skip(j));
        assert(spec_insert_pair(p, s) =~= s.take(j) + seq![p] + s.skip(j));
    }
}

/// Inserts a field into a key-sorted vector of fields, mirroring
/// `spec_insert_pair`.
fn insert_pair_sorted(p: (String, String), v: &Vec<(String, String)>) -> (r: Vec<
    (String, String),
>)
    ensures
        spec_pair_views(r@) == spec_insert_pair((p.0@, p.1@), spec_pair_views(v@)),
{
    let n = v.len();
    let mut j: usize = 0;
    while j < n && !lex_le(p.0.as_str(), v[j].0.as_str())
        invariant
            n == v@.len(),
            0 <= j <= n,
            forall|k: int|
                0 <= k < j ==> !spec_lex_le(p.0@, (#[trigger] spec_pair_views(v@)[k]).0),
        decreases n - j,
    {
        j += 1;
    }
    proof {
        lemma_insert_at((p.0@, p.1@), spec_pair_views(v@), j as int);
    }
    let mut r: Vec<(String, String)> = Vec::new();
    let mut k: usize = 0;
    while k < j
        invariant
            0 <= k <= j <= v@.len(),
            spec_pair_views(r@) =~= spec_pair_views(v@).take(k as int),
        decreases j - k,
    {
        let ghost prev = spec_pair_views(r@);
        r.push((v[k].0.clone(), v[k].1.clone()));
        proof {
            assert(spec_pair_views(r@) =~= prev + seq![(v@[k as int].0@, v@[k as int].1@)]);
            assert(spec_pair_views(v@).take(k + 1) =~= spec_pair_views(v@).take(k as int) + seq![
                (v@[k as int].0@, v@[k as int].1@),
            ]);
        }
        k += 1;
    }
    let ghost before_p = spec_pair_views(r@);
    r.push(p);
    proof {
        assert(spec_pair_views(r@) =~= before_p + seq![(p.0@, p.1@)]);
    }
    let mut k2: usize = j;
    while k2 < n
        invariant
            n == v@.len(),
            0 <= j <= k2 <= n,
            spec_pair_views(r@) =~= spec_pair_views(v@).take(j as int) + seq![
                (p.0@, p.1@),
            ] + spec_pair_views(v@).subrange(j as int, k2 as int),
        decreases n - k2,
    {
        let ghost prev = spec_pair_views(r@);
        r.push((v[k2].0.clone(), v[k2].1.clone()));
        proof {
            assert(spec_pair_views(r@) =~= prev + seq![(v@[k2 as int].0@, v@[k2 as int].1@)]);
            assert(spec_pair_views(v@).subrange(j as int, k2 + 1) =~= spec_pair_views(
                v@,
            ).subrange(j as int, k2 as int) + seq![(v@[k2 as int].0@, v@[k2 as int].1@)]);
        }
        k2 += 1;
    }
    proof {
        assert(spec_pair_views(v@).subrange(j as int, n as int) =~= spec_pair_views(v@).skip(
            j as int,
        ));
        assert(spec_pair_views(r@) =~= spec_insert_pair((p.0@, p.1@), spec_pair_views(v@)));
    }
    r
}

/// Sorts the fields by key, ascending, mirroring `spec_sort_pairs`.
pub fn sort_pairs(params: &Vec<(String, String)>) -> (r: Vec<(String, String)>)
    ensures
        spec_pair_views(r@) == spec_sort_pairs(spec_pair_views(params@)),
{
    let n = params.len();
    let mut acc: Vec<(String, String)> = Vec::new();
    let mut i: usize = n;
    assert(spec_pair_views(params@).skip(n as int) =~= Seq::<(Seq<char>, Seq<char>)>::empty());
    while i > 0
        invariant
            n == params@.len(),
            0 <= i <= n,
            spec_pair_views(acc@) == spec_sort_pairs(spec_pair_views(params@).skip(i as int)),
        decreases i,
    {
        i -= 1;
        let next = insert_pair_sorted((params[i].0.clone(), params[i].1.clone()), &acc);
        proof {
            let sv = spec_pair_views(params@);
            assert(sv.skip(i as int).first() == sv[i as int]);
            assert(sv.skip(i as int).drop_first() =~= sv.skip(i + 1));
        }
        acc = next;
    }
    assert(spec_pair_views(params@).skip(0) =~= spec_pair_views(params@));
    acc
}

/// Joins the non-empty field values onto the accumulator, each preceded by
/// `|`, left to right.
pub open spec fn spec_join_values(acc: Seq<char>, vals: Seq<(Seq<char>, Seq<char>)>) -> Seq<char>
    decreases vals.len(),
{
    if vals.len() == 0 {
        acc
    } else if vals.first().1.len() == 0 {
        spec_join_values(acc, vals.drop_first())
    } else {
        spec_join_values(acc + seq!['|'] + vals.first().1, vals.drop_first())
    }
}

/// The signature base string: the secret, then the non-empty values of the
/// key-sorted fields, joined with `|`.
pub open spec fn spec_signature_base(
    secret: Seq<char>,
    params: Seq<(Seq<char>, Seq<char>)>,
) -> Seq<char> {
    spec_join_values(secret, spec_sort_pairs(params))
}

/// The provider signature of a field list: lower-case hex of the SHA-1
/// digest of the signature base string.
pub open spec fn spec_signature(secret: Seq<char>, params: Seq<(Seq<char>, Seq<char>)>) -> Seq<
    char,
> {
    spec_hex_lower(sha1_of(spec_signature_base(secret, params)))
}

/// Computes the provider signature over the given fields, mirroring
/// `spec_signature`: sorts by key, drops empty values, joins with `|` after
/// the secret, hashes and hex-encodes.
pub fn generate_signature(secret_key: &str, params: &Vec<(String, String)>) -> (r: String)
    ensures
        r@ == spec_signature(secret_key@, spec_pair_views(params@)),
{
    let sorted = sort_pairs(params);
    let n = sorted.len();
    let mut base = secret_key.to_owned();
    let mut i: usize = 0;
    proof {
        reveal_strlit("|");
        assert(spec_pair_views(sorted@).skip(0) =~= spec_pair_views(sorted@));
    }
    while i < n
        invariant
            n == sorted@.len(),
            0 <= i <= n,
            spec_join_values(base@, spec_pair_views(sorted@).skip(i as int))
                == spec_join_values(secret_key@, spec_pair_views(sorted@)),
        decreases n - i,
    {
        proof {
            let sv = spec_pair_views(sorted@);
            assert(sv.skip(i as int).first() == sv[i as int]);
            assert(sv.skip(i as int).drop_first() =~= sv.skip(i + 1));
        }
        if !sorted[i].1.as_str().is_empty() {
            let ghost old_base = base@;
            base.append("|");
            base.append(sorted[i].1.as_str());
            proof {
                reveal_strlit("|");
                assert(base@ =~= old_base + seq!['|'] + sorted@[i as int].1@);
            }
        }
        i += 1;
    }
    proof {
        assert(spec_pair_views(sorted@).skip(n as int) =~= Seq::<(Seq<char>, Seq<char>)>::empty());
    }
    let digest = sha1_digest(base.as_str());
    hex_lower(&digest)
}

/// The value of the first field with the given key, if any.
pub open spec fn spec_lookup(params: Seq<(Seq<char>, Seq<char>)>, key: Seq<char>) -> Option<
    Seq<char>,
>
    decreases params.len(),
{
    if params.len() == 0 {
        None
    } else if params.first().0 == key {
        Some(params.first().1)
    } else {
        spec_lookup(params.drop_first(), key)
    }
}

/// Finds the value of the first field with the given key, mirroring
/// `spec_lookup`.
pub fn lookup_field(params: &Vec<(String, String)>, key: &str) -> (r: Option<String>)
    ensures
        match r {
            Some(v) => spec_lookup(spec_pair_views(params@), key@) == Some(v@),
            None => spec_lookup(spec_pair_views(params@), key@) is None,
        },
{
    let n = params.len();
    let mut i: usize = 0;
    assert(spec_pair_views(params@).skip(0) =~= spec_pair_views(params@));
    while i < n
        invariant
            n == params@.len(),
            0 <= i <= n,
            spec_lookup(spec_pair_views(params@).skip(i as int), key@) == spec_lookup(
                spec_pair_views(params@),
                key@,
            ),
        decreases n - i,
    {
        proof {
            let sv = spec_pair_views(params@);
            assert(sv.skip(i as int).first() == sv[i as int]);
            assert(sv.skip(i as int).drop_first() =~= sv.skip(i + 1));
        }
        if str_eq(params[i].0.as_str(), key) {
            return Some(params[i].1.clone());
        }
        i += 1;
    }
    None
}

/// The field list without the signature-bearing fields `signature` and
/// `response_signature_string`, which the scheme excludes from the base
/// string.
pub open spec fn spec_without_sig_fields(params: Seq<(Seq<char>, Seq<char>)>) -> Seq<
    (Seq<char>, Seq<char>),
>
    decreases params.len(),
{
    if params.len() == 0 {
        Seq::empty()
    } else {
        spec_without_sig_fields(params.drop_last()) + (if params.last().0 == "signature"@
            || params.last().0 == "response_signature_string"@ {
            Seq::empty()
        } else {
            seq![params.last()]
        })
    }
}

/// Whether an inbound callback carries a valid provider signature: it names
/// a `signature` field whose value equals the signature of all other fields.
pub open spec fn spec_callback_sig_ok(
    secret: Seq<char>,
    params: Seq<(Seq<char>, Seq<char>)>,
) -> bool {
    match spec_lookup(params, "signature"@) {
        None => false,
        Some(received) => received == spec_signature(secret, spec_without_sig_fields(params)),
    }
}

/// Verifies an inbound callback's signature, mirroring
/// `spec_callback_sig_ok`: extracts the received signature, recomputes the
/// signature over all fields except the signature-bearing ones, and compares.
pub fn verify_callback_signature(secret_key: &str, params: &Vec<(String, String)>) -> (r: bool)
    ensures
        r == spec_callback_sig_ok(secret_key@, spec_pair_views(params@)),
{
    let received = match lookup_field(params, "signature") {
        Some(sig) => sig,
        None => {
            return false;
        },
    };
    let n = params.len();
    let mut rest: Vec<(String, String)> = Vec::new();
    let mut i: usize = 0;
    assert(spec_pair_views(params@).take(0) =~= Seq::<(Seq<char>, Seq<char>)>::empty());
    assert(spec_without_sig_fields(Seq::<(Seq<char>, Seq<char>)>::empty()) =~= Seq::<
        (Seq<char>, Seq<char>),
    >::empty());
    while i < n
        invariant
            n == params@.len(),
            0 <= i <= n,
            spec_pair_views(rest@) == spec_without_sig_fields(
                spec_pair_views(params@).take(i as int),
            ),
        decreases n - i,
    {
        proof {
            let sv = spec_pair_views(params@);
            assert(sv.take(i + 1).drop_last() =~= sv.take(i as int));
            assert(sv.take(i + 1).last() == sv[i as int]);
        }
        let keep = !str_eq(params[i].0.as_str(), "signature") && !str_eq(
            params[i].0.as_str(),
            "response_signature_string",
        );
        if keep {
            let ghost prev = spec_pair_views(rest@);
            rest.push((params[i].0.clone(), params[i].1.clone()));
            assert(spec_pair_views(rest@) =~= prev + seq![
                (params@[i as int].0@, params@[i as int].1@),
            ]);
        }
        i += 1;
    }
    assert(spec_pair_views(params@).take(n as int) =~= spec_pair_views(params@));
    let expected = generate_signature(secret_key, &rest);
    str_eq(expected.as_str(), received.as_str())
}

/// The outbound checkout-session request: the fields the provider's
/// checkout-URL endpoint takes, with their signature.
#[derive(Debug)]
pub struct CheckoutSessionRequest {
    pub merchant_id: u64,
    pub order_id: String,
    pub order_desc: String,
    pub amount: u64,
    pub currency: String,
    pub version: String,
    pub response_url: String,
    pub server_callback_url: String,
    pub signature: String,
}

/// The field set an outbound checkout-session request is signed over.
pub open spec fn spec_checkout_params(
    merchant_id: u64,
    order_id: Seq<char>,
    amount: u64,
    order_desc: Seq<char>,
    server_callback_url: Seq<char>,
    response_url: Seq<char>,
) -> Seq<(Seq<char>, Seq<char>)> {
    seq![
        ("amount"@, spec_dec_digits(amount as int)),
        ("currency"@, "GEL"@),
        ("merchant_id"@, spec_dec_digits(merchant_id as int)),
        ("order_desc"@, order_desc),
        ("order_id"@, order_id),
        ("response_url"@, response_url),
        ("server_callback_url"@, server_callback_url),
        ("version"@, "1.0.1"@),
    ]
}

/// Builds and signs the outbound checkout-session request.
pub fn build_checkout_request(
    merchant_id: u64,
    secret_key: &str,
    order_id: &str,
    amount: u64,
    order_desc: &str,
    server_callback_url: &str,
    response_url: &str,
) -> (r: CheckoutSessionRequest)
    ensures
        r.merchant_id == merchant_id,
        r.order_id@ == order_id@,
        r.order_desc@ == order_desc@,
        r.amount == amount,
        r.currency@ == "GEL"@,
        r.version@ == "1.0.1"@,
        r.response_url@ == response_url@,
        r.server_callback_url@ == server_callback_url@,
        r.signature@ == spec_signature(
            secret_key@,
            spec_checkout_params(
                merchant_id,
                order_id@,
                amount,
                order_desc@,
                server_callback_url@,
                response_url@,
            ),
        ),
{
    let mut params: Vec<(String, String)> = Vec::new();
    params.push(("amount".to_owned(), u64_to_string(amount)));
    params.push(("currency".to_owned(), "GEL".to_owned()));
    params.push(("merchant_id".to_owned(), u64_to_string(merchant_id)));
    params.push(("order_desc".to_owned(), order_desc.to_owned()));
    params.push(("order_id".to_owned(), order_id.to_owned()));
    params.push(("response_url".to_owned(), response_url.to_owned()));
    params.push(("server_callback_url".to_owned(), server_callback_url.to_owned()));
    params.push(("version".to_owned(), "1.0.1".to_owned()));
    proof {
        assert(spec_pair_views(params@) =~= spec_checkout_params(
            merchant_id,
            order_id@,
            amount,
            order_desc@,
            server_callback_url@,
            response_url@,
        ));
    }
    let signature = generate_signature(secret_key, &params);
    CheckoutSessionRequest {
        merchant_id,
        order_id: order_id.to_owned(),
        order_desc: order_desc.to_owned(),
        amount,
        currency: "GEL".to_owned(),
        version: "1.0.1".to_owned(),
        response_url: response_url.to_owned(),
        server_callback_url: server_callback_url.to_owned(),
        signature,
    }
}

/// What the caller extracted from the provider's checkout-URL response
/// body, one field at a time; absent fields stay `None`.
#[derive(Debug)]
pub struct GatewayResponse {
    pub response_status: Option<String>,
    pub error_message: Option<String>,
    pub checkout_url: Option<String>,
}

/// How the provider's checkout-URL response reads: the redirect URL on
/// success, else the message of the internal error it surfaces as.
pub open spec fn spec_interpret_response(resp: Option<GatewayResponse>) -> Result<
    Seq<char>,
    Seq<char>,
> {
    match resp {
        None => Err("Invalid Flitt response format"@),
        Some(g) => {
            if !(g.response_status matches Some(s) && s@ == "success"@) {
                Err(
                    "Flitt order creation failed: "@ + (match g.error_message {
                        Some(em) => em@,
                        None => "Unknown Flitt error"@,
                    }),
                )
            } else {
                match g.checkout_url {
                    Some(u) => Ok(u@),
                    None => Err("Flitt response missing checkout_url"@),
                }
            }
        },
    }
}

/// Interprets the provider's checkout-URL response, mirroring
/// `spec_interpret_response`: anything but a `success` status, and any
/// malformed body, is an internal error carrying the provider's message; a
/// success must carry the redirect URL.
pub fn interpret_checkout_response(resp: &Option<GatewayResponse>) -> (r: Result<
    String,
    AppError,
>)
    ensures
        match r {
            Ok(u) => spec_interpret_response(*resp) == Ok::<Seq<char>, Seq<char>>(u@),
            Err(e) => e matches AppError::InternalError(m) && spec_interpret_response(*resp)
                == Err::<Seq<char>, Seq<char>>(m@),
        },
{
    let g = match resp {
        Some(g) => g,
        None => {
            return Err(AppError::InternalError("Invalid Flitt response format".to_owned()));
        },
    };
    let ok = match &g.response_status {
        Some(s) => str_eq(s.as_str(), "success"),
        None => false,
    };
    if !ok {
        let mut m = "Flitt order creation failed: ".to_owned();
        match &g.error_message {
            Some(em) => m.append(em.as_str()),
            None => m.append("Unknown Flitt error"),
        }
        return Err(AppError::InternalError(m));
    }
    match &g.checkout_url {
        Some(u) => Ok(u.clone()),
        None => Err(AppError::InternalError("Flitt response missing checkout_url".to_owned())),
    }
}

} // verus!
