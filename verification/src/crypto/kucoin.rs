use vstd::prelude::*;
use base64::Engine;
use base64::prelude::BASE64_STANDARD;
use hmac::KeyInit;
use hmac::Mac;

verus! {

/// The HMAC-SHA-256 tag of a message under a key. The tag is a pure
/// function of the two character sequences; its value is stated nowhere
/// and comes only from the hmac crate.
pub uninterp spec fn hmac_sha256_of(key: Seq<char>, msg: Seq<char>) -> Seq<u8>;

/// Relies on hmac's `Hmac<Sha256>` (`new_from_slice`, `update`,
/// `finalize`): the 32-byte tag depends on the key and message alone,
/// and any key length is accepted.
#[verifier::external_body]
fn hmac_sha256(secret: &str, input: &str) -> (r: Vec<u8>)
    ensures
        r@ == hmac_sha256_of(secret@, input@),
        r@.len() == 32,
{
    let mut mac = hmac::Hmac::<sha2::Sha256>::new_from_slice(secret.as_bytes()).unwrap();
    mac.update(input.as_bytes());
    mac.finalize().into_bytes().to_vec()
}

/// The standard base64 encoding of a byte sequence, as the base64
/// crate's padded STANDARD alphabet spells it.
pub uninterp spec fn base64_of(bytes: Seq<u8>) -> Seq<char>;

/// Relies on base64's `BASE64_STANDARD.encode`: the encoding depends on
/// the bytes alone and spells each three-byte group (padded) as four
/// characters.
#[verifier::external_body]
fn base64_encode(bytes: &Vec<u8>) -> (r: String)
    ensures
        r@ == base64_of(bytes@),
        r@.len() == 4 * ((bytes@.len() + 2) / 3),
{
    BASE64_STANDARD.encode(bytes)
}

/// Sign `input` under `secret` the way the exchange's API asks:
/// HMAC-SHA-256, then base64.
pub fn encrypt(secret: String, input: String) -> (r: String)
    ensures
        r@ == base64_of(hmac_sha256_of(secret@, input@)),
{
    let tag = hmac_sha256(secret.as_str(), input.as_str());
    base64_encode(&tag)
}

/// The url with the exchange's API host removed when it stands in
/// front, and unchanged otherwise.
pub open spec fn spec_strip_host(url: Seq<char>) -> Seq<char> {
    let host = "https://api.kucoin.com"@;
    if url.len() >= host.len() && url.subrange(0, host.len() as int) == host {
        url.subrange(host.len() as int, url.len() as int)
    } else {
        url
    }
}

/// The string a signed request's header must carry: the signature of
/// `{timestamp}GET{path}` under the account's secret, where the path is
/// the url without the API host.
pub fn sign(url: &String, secret: String, timestamp: String) -> (r: String)
    ensures
        r@ == base64_of(
            hmac_sha256_of(secret@, timestamp@ + "GET"@ + spec_strip_host(url@)),
        ),
{
    let host: &str = "https://api.kucoin.com";
    let hn = host.unicode_len();
    let s = url.as_str();
    let un = s.unicode_len();
    let mut matched = un >= hn;
    let mut i: usize = 0;
    while matched && i < hn
        invariant
            i <= hn,
            hn == host@.len(),
            un == s@.len(),
            matched ==> hn <= un,
            matched ==> forall|j: int| 0 <= j < i ==> s@[j] == host@[j],
            !matched ==> !(un >= hn && s@.subrange(0, hn as int) == host@),
        decreases hn - i,
    {
        if s.get_char(i) != host.get_char(i) {
            proof {
                if un >= hn && s@.subrange(0, hn as int) == host@ {
                    assert(s@.subrange(0, hn as int)[i as int] == s@[i as int]);
                }
            }
            matched = false;
        }
        i = i + 1;
    }
    let path: &str = if matched {
        proof {
            assert(s@.subrange(0, host@.len() as int) =~= host@);
        }
        s.substring_char(hn, un)
    } else {
        s
    };
    let mut input = timestamp;
    input.append("GET");
    input.append(path);
    encrypt(secret, input)
}

} // verus!
