use crate::text::{
    decimal, decimal_holds_digits, decimal_is_injective, is_decimal_digit, push_char, push_decimal,
};
use vstd::prelude::*;
use vstd::string::StringExecFns;
use vstd::string::StringSliceAdditionalSpecFns;
use vstd::utf8::encode_utf8;

verus! {

/// `head`, a colon, and `tail`.
pub open spec fn joined(head: Seq<char>, tail: Seq<char>) -> Seq<char> {
    head + seq![':'] + tail
}

/// The text that is fingerprinted for a request: the source path, the
/// modification time, the render size and the render quality, the numbers in
/// decimal and a colon between each two.
pub open spec fn key_input(path: Seq<char>, modified_time: u64, size: u32, quality: u8) -> Seq<
    char,
> {
    joined(
        joined(joined(path, decimal(modified_time as nat)), decimal(size as nat)),
        decimal(quality as nat),
    )
}

/// The MD5 digest of `data`, as `md5::compute` computes it.
pub uninterp spec fn md5_digest(data: Seq<u8>) -> Seq<u8>;

/// `md5::compute`: the MD5 digest of `data`, which is 16 bytes long.
#[verifier::external_body]
pub(crate) fn compute_md5(data: &[u8]) -> (digest: Vec<u8>)
    ensures
        digest@ == md5_digest(data@),
        digest@.len() == 16,
{
    md5::compute(data).0.to_vec()
}

/// The lower-case hexadecimal digit for `nibble`.
pub open spec fn hex_digit(nibble: nat) -> char
    recommends
        nibble < 16,
{
    if nibble < 10 {
        (('0' as u8) + nibble) as char
    } else {
        (('a' as u8) + (nibble - 10)) as char
    }
}

/// `bytes` in lower-case hexadecimal, two digits for each byte, the high
/// half of each byte first.
pub open spec fn hex_lower(bytes: Seq<u8>) -> Seq<char> {
    Seq::new(
        2 * bytes.len(),
        |i: int|
            if i % 2 == 0 {
                hex_digit((bytes[i / 2] / 16) as nat)
            } else {
                hex_digit((bytes[i / 2] % 16) as nat)
            },
    )
}

/// The cache key of a request: the MD5 digest of the UTF-8 bytes of
/// [`key_input`], in lower-case hexadecimal.
pub open spec fn cache_key(path: Seq<char>, modified_time: u64, size: u32, quality: u8) -> Seq<
    char,
> {
    hex_lower(md5_digest(encode_utf8(key_input(path, modified_time, size, quality))))
}

fn hex_digit_of(nibble: u8) -> (digit: char)
    requires
        nibble < 16,
    ensures
        digit == hex_digit(nibble as nat),
{
    if nibble < 10 {
        (48u8 + nibble) as char
    } else {
        (87u8 + nibble) as char
    }
}

/// Writes `bytes` in lower-case hexadecimal.
pub fn to_hex_lower(bytes: &[u8]) -> (text: String)
    ensures
        text@ == hex_lower(bytes@),
{
    let mut text = String::new();
    let mut i: usize = 0;
    while i < bytes.len()
        invariant
            i <= bytes.len(),
            text@.len() == 2 * i,
            forall|k: int| 0 <= k < 2 * i ==> text@[k] == hex_lower(bytes@)[k],
        decreases bytes.len() - i,
    {
        let byte = bytes[i];
        push_char(&mut text, hex_digit_of(byte / 16));
        push_char(&mut text, hex_digit_of(byte % 16));
        i += 1;
    }
    assert(text@ =~= hex_lower(bytes@));
    text
}

/// The text that is fingerprinted for a request.
pub fn build_key_input(path: &str, modified_time: u64, size: u32, quality: u8) -> (input: String)
    ensures
        input@ == key_input(path@, modified_time, size, quality),
{
    let mut input = String::from_str(path);
    input.append(":");
    push_decimal(&mut input, modified_time);
    input.append(":");
    push_decimal(&mut input, size as u64);
    input.append(":");
    push_decimal(&mut input, quality as u64);
    proof {
        reveal_strlit(":");
        assert(":"@ =~= seq![':']);
    }
    input
}

/// Derives the cache key of a request from every field of it.
///
/// Equal requests have equal keys. Requests that differ in any field are
/// fingerprinted from different texts, so their keys differ unless MD5 maps
/// the two texts to one digest.
pub fn derive_cache_key(path: &str, modified_time: u64, size: u32, quality: u8) -> (key: String)
    ensures
        key@ == cache_key(path@, modified_time, size, quality),
        key@.len() == 32,
{
    let input = build_key_input(path, modified_time, size, quality);
    let digest = compute_md5(input.as_str().as_bytes());
    to_hex_lower(digest.as_slice())
}

/// Whether `text` holds no colon.
pub open spec fn colon_free(text: Seq<char>) -> bool {
    forall|i: int| 0 <= i < text.len() ==> #[trigger] text[i] != ':'
}

/// Two texts that were joined with colon-free tails are equal only if the
/// heads are equal and the tails are equal.
pub proof fn joined_is_injective(
    head_a: Seq<char>,
    tail_a: Seq<char>,
    head_b: Seq<char>,
    tail_b: Seq<char>,
)
    requires
        colon_free(tail_a),
        colon_free(tail_b),
        joined(head_a, tail_a) == joined(head_b, tail_b),
    ensures
        head_a == head_b,
        tail_a == tail_b,
{
    let a = joined(head_a, tail_a);
    let b = joined(head_b, tail_b);
    assert(a.len() == head_a.len() + 1 + tail_a.len());
    assert(b.len() == head_b.len() + 1 + tail_b.len());
    if tail_a.len() < tail_b.len() {
        let at = head_a.len() as int;
        assert(a[at] == ':');
        assert(b[at] == tail_b[at - head_b.len() - 1]);
    } else if tail_b.len() < tail_a.len() {
        let at = head_b.len() as int;
        assert(b[at] == ':');
        assert(a[at] == tail_a[at - head_a.len() - 1]);
    } else {
        assert(head_a =~= head_b) by {
            assert forall|i: int| 0 <= i < head_a.len() implies head_a[i] == head_b[i] by {
                assert(a[i] == head_a[i]);
                assert(b[i] == head_b[i]);
            }
        }
        assert(tail_a =~= tail_b) by {
            assert forall|i: int| 0 <= i < tail_a.len() implies tail_a[i] == tail_b[i] by {
                assert(a[head_a.len() + 1 + i] == tail_a[i]);
                assert(b[head_b.len() + 1 + i] == tail_b[i]);
            }
        }
    }
}

/// A decimal numeral holds no colon.
pub proof fn decimal_is_colon_free(n: nat)
    ensures
        colon_free(decimal(n)),
{
    decimal_holds_digits(n);
    assert forall|i: int| 0 <= i < decimal(n).len() implies #[trigger] decimal(n)[i] != ':' by {
        assert(is_decimal_digit(decimal(n)[i]));
    }
}

/// Requests that differ in any field are fingerprinted from different texts.
pub proof fn key_input_is_injective(
    path_a: Seq<char>,
    modified_time_a: u64,
    size_a: u32,
    quality_a: u8,
    path_b: Seq<char>,
    modified_time_b: u64,
    size_b: u32,
    quality_b: u8,
)
    requires
        key_input(path_a, modified_time_a, size_a, quality_a) == key_input(
            path_b,
            modified_time_b,
            size_b,
            quality_b,
        ),
    ensures
        path_a == path_b,
        modified_time_a == modified_time_b,
        size_a == size_b,
        quality_a == quality_b,
{
    decimal_is_colon_free(modified_time_a as nat);
    decimal_is_colon_free(modified_time_b as nat);
    decimal_is_colon_free(size_a as nat);
    decimal_is_colon_free(size_b as nat);
    decimal_is_colon_free(quality_a as nat);
    decimal_is_colon_free(quality_b as nat);
    let with_time_a = joined(path_a, decimal(modified_time_a as nat));
    let with_time_b = joined(path_b, decimal(modified_time_b as nat));
    let with_size_a = joined(with_time_a, decimal(size_a as nat));
    let with_size_b = joined(with_time_b, decimal(size_b as nat));
    joined_is_injective(
        with_size_a,
        decimal(quality_a as nat),
        with_size_b,
        decimal(quality_b as nat),
    );
    joined_is_injective(with_time_a, decimal(size_a as nat), with_time_b, decimal(size_b as nat));
    joined_is_injective(
        path_a,
        decimal(modified_time_a as nat),
        path_b,
        decimal(modified_time_b as nat),
    );
    decimal_is_injective(modified_time_a as nat, modified_time_b as nat);
    decimal_is_injective(size_a as nat, size_b as nat);
    decimal_is_injective(quality_a as nat, quality_b as nat);
}

/// Two byte sequences with the same hexadecimal text are the same sequence.
pub proof fn hex_lower_is_injective(a: Seq<u8>, b: Seq<u8>)
    requires
        hex_lower(a) == hex_lower(b),
    ensures
        a == b,
{
    assert(hex_lower(a).len() == 2 * a.len());
    assert(hex_lower(b).len() == 2 * b.len());
    assert(a =~= b) by {
        assert forall|i: int| 0 <= i < a.len() implies a[i] == b[i] by {
            assert(hex_lower(a)[2 * i] == hex_digit((a[i] / 16) as nat));
            assert(hex_lower(b)[2 * i] == hex_digit((b[i] / 16) as nat));
            assert(hex_lower(a)[2 * i + 1] == hex_digit((a[i] % 16) as nat));
            assert(hex_lower(b)[2 * i + 1] == hex_digit((b[i] % 16) as nat));
        }
    }
}

/// Key derivation is a function of the request, and it is as sensitive to
/// each field as MD5 allows.
///
/// Two requests have the same key exactly if MD5 gives the texts that are
/// fingerprinted for them the same digest. Those texts, and their UTF-8
/// bytes, are the same only for the same request: two requests that differ
/// in the path, the modification time, the render size or the render quality
/// get different keys unless their texts collide under MD5.
pub proof fn cache_key_sensitivity(
    path_a: Seq<char>,
    modified_time_a: u64,
    size_a: u32,
    quality_a: u8,
    path_b: Seq<char>,
    modified_time_b: u64,
    size_b: u32,
    quality_b: u8,
)
    ensures
        cache_key(path_a, modified_time_a, size_a, quality_a) == cache_key(
            path_b,
            modified_time_b,
            size_b,
            quality_b,
        ) <==> md5_digest(encode_utf8(key_input(path_a, modified_time_a, size_a, quality_a)))
            == md5_digest(encode_utf8(key_input(path_b, modified_time_b, size_b, quality_b))),
        encode_utf8(key_input(path_a, modified_time_a, size_a, quality_a)) == encode_utf8(
            key_input(path_b, modified_time_b, size_b, quality_b),
        ) <==> path_a == path_b && modified_time_a == modified_time_b && size_a == size_b
            && quality_a == quality_b,
{
    let input_a = key_input(path_a, modified_time_a, size_a, quality_a);
    let input_b = key_input(path_b, modified_time_b, size_b, quality_b);
    if hex_lower(md5_digest(encode_utf8(input_a))) == hex_lower(md5_digest(encode_utf8(input_b))) {
        hex_lower_is_injective(md5_digest(encode_utf8(input_a)), md5_digest(encode_utf8(input_b)));
    }
    if encode_utf8(input_a) == encode_utf8(input_b) {
        vstd::utf8::encode_utf8_decode_utf8(input_a);
        vstd::utf8::encode_utf8_decode_utf8(input_b);
        key_input_is_injective(
            path_a,
            modified_time_a,
            size_a,
            quality_a,
            path_b,
            modified_time_b,
            size_b,
            quality_b,
        );
    }
}

/// Two requests that differ in the path, the modification time, the
/// render size or the render quality have the same key only where MD5 fails
/// them: their texts are different byte sequences with one and the same
/// digest.
pub proof fn equal_keys_of_different_requests_collide_under_md5(
    path_a: Seq<char>,
    modified_time_a: u64,
    size_a: u32,
    quality_a: u8,
    path_b: Seq<char>,
    modified_time_b: u64,
    size_b: u32,
    quality_b: u8,
)
    requires
        path_a != path_b || modified_time_a != modified_time_b || size_a != size_b || quality_a
            != quality_b,
        cache_key(path_a, modified_time_a, size_a, quality_a) == cache_key(
            path_b,
            modified_time_b,
            size_b,
            quality_b,
        ),
    ensures
        encode_utf8(key_input(path_a, modified_time_a, size_a, quality_a)) != encode_utf8(
            key_input(path_b, modified_time_b, size_b, quality_b),
        ),
        md5_digest(encode_utf8(key_input(path_a, modified_time_a, size_a, quality_a)))
            == md5_digest(encode_utf8(key_input(path_b, modified_time_b, size_b, quality_b))),
{
    cache_key_sensitivity(
        path_a,
        modified_time_a,
        size_a,
        quality_a,
        path_b,
        modified_time_b,
        size_b,
        quality_b,
    );
}

} // verus!
