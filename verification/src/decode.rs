//! Input decoding: stripping the optional data-URL scheme marker and
//! decoding the base64 payload to compressed audio bytes.

use vstd::prelude::*;
use crate::events::PipelineError;

verus! {

/// The scheme marker an input may carry: the ASCII bytes of
/// `data:audio/ogg;base64,`.
pub open spec fn data_url_prefix() -> Seq<u8> {
    seq![
        100u8,
        97u8,
        116u8,
        97u8,
        58u8,
        97u8,
        117u8,
        100u8,
        105u8,
        111u8,
        47u8,
        111u8,
        103u8,
        103u8,
        59u8,
        98u8,
        97u8,
        115u8,
        101u8,
        54u8,
        52u8,
        44u8,
    ]
}

/// Whether the input starts with the data-URL scheme marker.
pub open spec fn has_data_url_prefix(s: Seq<u8>) -> bool {
    s.len() >= data_url_prefix().len() && s.take(data_url_prefix().len() as int)
        == data_url_prefix()
}

/// The input with the scheme marker removed when it carries one.
pub open spec fn stripped(s: Seq<u8>) -> Seq<u8> {
    if has_data_url_prefix(s) {
        s.skip(data_url_prefix().len() as int)
    } else {
        s
    }
}

/// The scheme marker as bytes.
fn data_url_prefix_bytes() -> (r: Vec<u8>)
    ensures
        r@ == data_url_prefix(),
{
    let mut v: Vec<u8> = Vec::new();
    v.push(100);
    v.push(97);
    v.push(116);
    v.push(97);
    v.push(58);
    v.push(97);
    v.push(117);
    v.push(100);
    v.push(105);
    v.push(111);
    v.push(47);
    v.push(111);
    v.push(103);
    v.push(103);
    v.push(59);
    v.push(98);
    v.push(97);
    v.push(115);
    v.push(101);
    v.push(54);
    v.push(52);
    v.push(44);
    proof {
        assert(v@ =~= data_url_prefix());
    }
    v
}

/// The bytes of the input from `from` on.
fn copy_from(input: &Vec<u8>, from: usize) -> (r: Vec<u8>)
    requires
        from <= input@.len(),
    ensures
        r@ == input@.skip(from as int),
{
    let mut r: Vec<u8> = Vec::new();
    let mut i: usize = from;
    while i < input.len()
        invariant
            from <= i <= input@.len(),
            r@ == input@.subrange(from as int, i as int),
        decreases input@.len() - i,
    {
        let b = input[i];
        r.push(b);
        proof {
            assert(r@ =~= input@.subrange(from as int, i + 1));
        }
        i += 1;
    }
    proof {
        assert(input@.subrange(from as int, input@.len() as int) =~= input@.skip(from as int));
    }
    r
}

/// Removes the `data:audio/ogg;base64,` scheme marker when the input starts
/// with it; any other input passes through unchanged.
pub fn strip_data_url_prefix(input: &Vec<u8>) -> (r: Vec<u8>)
    ensures
        r@ == stripped(input@),
{
    let prefix = data_url_prefix_bytes();
    if input.len() < prefix.len() {
        assert(!has_data_url_prefix(input@));
        return copy_from(input, 0);
    }
    let mut i: usize = 0;
    let mut matches: bool = true;
    proof {
        assert(input@.take(0) =~= prefix@.take(0));
    }
    while i < prefix.len()
        invariant
            0 <= i <= prefix@.len(),
            prefix@ == data_url_prefix(),
            input@.len() >= prefix@.len(),
            matches ==> input@.take(i as int) == prefix@.take(i as int),
            !matches ==> input@.take(prefix@.len() as int) != prefix@,
        decreases prefix@.len() - i,
    {
        let ghost pre = matches;
        if input[i] != prefix[i] {
            matches = false;
            proof {
                assert(input@.take(prefix@.len() as int)[i as int] == input@[i as int]);
                assert(input@.take(prefix@.len() as int) != prefix@);
            }
        } else {
            proof {
                if pre {
                    assert(input@.take(i + 1) =~= input@.take(i as int).push(input@[i as int]));
                    assert(prefix@.take(i + 1) =~= prefix@.take(i as int).push(prefix@[i as int]));
                }
            }
        }
        i += 1;
    }
    proof {
        assert(prefix@.take(prefix@.len() as int) =~= prefix@);
        if matches {
            assert(input@.take(prefix@.len() as int) == prefix@);
        }
    }
    if matches {
        copy_from(input, prefix.len())
    } else {
        copy_from(input, 0)
    }
}

/// What base64's standard engine decodes a byte string to: a function of the
/// input alone, with no result on inputs that are not valid base64.
pub uninterp spec fn base64_decoding(s: Seq<u8>) -> Option<Seq<u8>>;

/// Relies on base64's `Engine::decode` with the `STANDARD` engine: it
/// decodes the input bytes, deterministically, returning the decoded bytes
/// exactly when the input is valid standard base64.
#[verifier::external_body]
fn base64_decode(data: &Vec<u8>) -> (r: Option<Vec<u8>>)
    ensures
        r is Some <==> base64_decoding(data@) is Some,
        r matches Some(v) ==> base64_decoding(data@) == Option::Some(v@),
{
    base64::Engine::decode(&base64::engine::general_purpose::STANDARD, data).ok()
}

/// Decodes one audio input blob: strips an optional `data:audio/ogg;base64,`
/// marker, then decodes the standard-base64 payload to the compressed audio
/// bytes.  Fails exactly on a payload that is not valid standard base64, and
/// then reports `InvalidBase64`.
pub fn decode_audio_base64(input: &Vec<u8>) -> (r: Result<Vec<u8>, PipelineError>)
    ensures
        r is Ok <==> base64_decoding(stripped(input@)) is Some,
        r matches Ok(v) ==> base64_decoding(stripped(input@)) == Option::Some(v@),
        r is Err ==> r == Result::<Vec<u8>, PipelineError>::Err(PipelineError::InvalidBase64),
{
    let payload = strip_data_url_prefix(input);
    match base64_decode(&payload) {
        Option::Some(v) => Result::Ok(v),
        Option::None => Result::Err(PipelineError::InvalidBase64),
    }
}

} // verus!
