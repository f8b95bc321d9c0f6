use vstd::prelude::*;
use vstd::string::StringExecFns;

verus! {

/// The character that stands for the six-bit value `value` in the standard
/// base64 alphabet.
pub open spec fn base64_symbol(value: nat) -> char
    recommends
        value < 64,
{
    if value < 26 {
        (('A' as u8) + value) as char
    } else if value < 52 {
        (('a' as u8) + (value - 26)) as char
    } else if value < 62 {
        (('0' as u8) + (value - 52)) as char
    } else if value == 62 {
        '+'
    } else {
        '/'
    }
}

/// `data` in base64 with the standard alphabet: four characters for every
/// three bytes, the last group padded with `=`.
pub open spec fn base64_text(data: Seq<u8>) -> Seq<char>
    decreases data.len(),
{
    if data.len() == 0 {
        Seq::empty()
    } else if data.len() == 1 {
        seq![
            base64_symbol((data[0] / 4) as nat),
            base64_symbol(((data[0] % 4) * 16) as nat),
            '=',
            '=',
        ]
    } else if data.len() == 2 {
        seq![
            base64_symbol((data[0] / 4) as nat),
            base64_symbol(((data[0] % 4) * 16 + data[1] / 16) as nat),
            base64_symbol(((data[1] % 16) * 4) as nat),
            '=',
        ]
    } else {
        seq![
            base64_symbol((data[0] / 4) as nat),
            base64_symbol(((data[0] % 4) * 16 + data[1] / 16) as nat),
            base64_symbol(((data[1] % 16) * 4 + data[2] / 64) as nat),
            base64_symbol((data[2] % 64) as nat),
        ] + base64_text(data.skip(3))
    }
}

/// Most bytes that [`to_data_url`] turns into text: the text is a third
/// longer than the bytes and has to fit into memory.
pub open spec fn max_encodable_len() -> nat {
    (usize::MAX / 4) as nat
}

/// `base64::Engine::encode` of `base64::engine::general_purpose::STANDARD`:
/// `data` in base64 with the standard alphabet and padding. The engine
/// panics where the length of the text does not fit a `usize`, which the
/// bound on the length of `data` rules out.
#[verifier::external_body]
pub(crate) fn encode_base64(data: &[u8]) -> (text: String)
    requires
        data@.len() <= max_encodable_len(),
    ensures
        text@ == base64_text(data@),
{
    base64::Engine::encode(&base64::engine::general_purpose::STANDARD, data)
}

/// The characters that open the data URL of a thumbnail.
pub open spec fn data_url_prefix() -> Seq<char> {
    "data:image/png;base64,"@
}

/// The data URL that carries the PNG file `png`.
pub open spec fn data_url(png: Seq<u8>) -> Seq<char> {
    data_url_prefix() + base64_text(png)
}

/// Wraps a PNG file into a data URL; none if the file is too long for its
/// text to fit into memory.
pub fn to_data_url(png: &[u8]) -> (url: Option<String>)
    ensures
        url is Some <==> png@.len() <= max_encodable_len(),
        url matches Some(text) ==> text@ == data_url(png@),
{
    if png.len() > usize::MAX / 4 {
        return None;
    }
    let encoded = encode_base64(png);
    Some(String::from_str("data:image/png;base64,").concat(encoded.as_str()))
}

} // verus!
