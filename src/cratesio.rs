//! Crate metadata from the crates.io registry, and percent-encoding of the
//! names that go into its addresses.
use vstd::prelude::*;
use vstd::utf8::encode_utf8;
use percent_encoding::{utf8_percent_encode, NON_ALPHANUMERIC};

verus! {

pub open spec fn is_ascii_alnum(b: u8) -> bool {
    (48 <= b && b <= 57) || (65 <= b && b <= 90) || (97 <= b && b <= 122)
}

/// The bytes that `NON_ALPHANUMERIC` leaves as they are.
pub open spec fn keep_alnum() -> spec_fn(u8) -> bool {
    |b: u8| is_ascii_alnum(b)
}

/// The upper-case hexadecimal digit of `n`, below sixteen.
pub open spec fn hex_digit(n: u8) -> char {
    if n < 10 {
        (48 + n) as char
    } else {
        (55 + n) as char
    }
}

/// `bytes` with every byte that `keep` rejects written as `%` and two
/// upper-case hexadecimal digits.
pub open spec fn percent_encoded(bytes: Seq<u8>, keep: spec_fn(u8) -> bool) -> Seq<char>
    decreases bytes.len(),
{
    if bytes.len() == 0 {
        seq![]
    } else {
        let b = bytes.last();
        percent_encoded(bytes.drop_last(), keep) + if keep(b) {
            seq![b as char]
        } else {
            seq!['%', hex_digit(b / 16), hex_digit(b % 16)]
        }
    }
}

/// Relies on `percent_encoding::utf8_percent_encode` with `NON_ALPHANUMERIC`:
/// each UTF-8 byte of `s` that is no ASCII letter or digit becomes `%` and
/// two upper-case hexadecimal digits.
#[verifier::external_body]
fn encode_non_alphanumeric(s: &str) -> (r: String)
    ensures
        r@ == percent_encoded(encode_utf8(s@), keep_alnum()),
{
    utf8_percent_encode(s, NON_ALPHANUMERIC).to_string()
}

/// The registry address that describes crate `name`.
pub fn crate_info_url(name: &str) -> (r: String)
    ensures
        r@ == "https://crates.io/api/v1/crates/"@ + percent_encoded(encode_utf8(name@), keep_alnum()),
{
    let mut url = String::from_str("https://crates.io/api/v1/crates/");
    let encoded = encode_non_alphanumeric(name);
    url.append(encoded.as_str());
    url
}

/// What the registry says of one crate.
pub struct CrateView {
    pub id: Seq<char>,
    pub name: Seq<char>,
    pub description: Seq<char>,
    pub max_version: Seq<char>,
}

/// The registry's answer about a crate.
pub struct Info {
    krate: Crate,
}

/// One crate of the registry.
pub struct Crate {
    id: String,
    name: String,
    description: String,
    max_version: String,
}

impl View for Crate {
    type V = CrateView;

    closed spec fn view(&self) -> CrateView {
        CrateView {
            id: self.id@,
            name: self.name@,
            description: self.description@,
            max_version: self.max_version@,
        }
    }
}

impl View for Info {
    type V = CrateView;

    closed spec fn view(&self) -> CrateView {
        self.krate@
    }
}

impl Info {
    pub fn new(krate: Crate) -> (r: Info)
        ensures
            r@ == krate@,
    {
        Info { krate }
    }

    pub fn krate(&self) -> (r: &Crate)
        ensures
            r@ == self@,
    {
        &self.krate
    }
}

impl Crate {
    pub fn new(id: String, name: String, description: String, max_version: String) -> (r: Crate)
        ensures
            r@ == (CrateView {
                id: id@,
                name: name@,
                description: description@,
                max_version: max_version@,
            }),
    {
        Crate { id, name, description, max_version }
    }

    pub fn id(&self) -> (r: &str)
        ensures
            r@ == self@.id,
    {
        self.id.as_str()
    }

    pub fn name(&self) -> (r: &str)
        ensures
            r@ == self@.name,
    {
        self.name.as_str()
    }

    pub fn description(&self) -> (r: &str)
        ensures
            r@ == self@.description,
    {
        self.description.as_str()
    }

    pub fn max_version(&self) -> (r: &str)
        ensures
            r@ == self@.max_version,
    {
        self.max_version.as_str()
    }
}

} // verus!
