//! Quantization settings for the HyperQuad directive.
use vstd::prelude::*;
use crate::text::{to_uppercase, uppercase_spec, is_ascii_text, ascii_upper, ascii_upper_char};

verus! {

/// The llama.cpp file type code of a compression name (already upper case);
/// an unknown name means Q4_K_M.
pub open spec fn quantization_code(name: Seq<char>) -> i32 {
    if name == "Q4_0"@ {
        2
    } else if name == "Q4_1"@ {
        3
    } else if name == "Q5_0"@ {
        8
    } else if name == "Q5_1"@ {
        9
    } else if name == "Q8_0"@ {
        7
    } else if name == "Q4_K_M"@ {
        15
    } else if name == "Q5_K_M"@ {
        17
    } else if name == "Q6_K"@ {
        18
    } else {
        15
    }
}

/// The file type code for a compression name already in upper case.
pub fn quantization_code_of(name: &str) -> (code: i32)
    ensures
        code == quantization_code(name@),
{
    let u = String::from_str(name);
    if u == String::from_str("Q4_0") {
        2
    } else if u == String::from_str("Q4_1") {
        3
    } else if u == String::from_str("Q5_0") {
        8
    } else if u == String::from_str("Q5_1") {
        9
    } else if u == String::from_str("Q8_0") {
        7
    } else if u == String::from_str("Q4_K_M") {
        15
    } else if u == String::from_str("Q5_K_M") {
        17
    } else if u == String::from_str("Q6_K") {
        18
    } else {
        15
    }
}

/// The file type code for a compression name, whatever its case.
pub fn parse_quantization_type(compression: &str) -> (code: i32)
    ensures
        code == quantization_code(uppercase_spec(compression@)),
        is_ascii_text(compression@) ==> code == quantization_code(ascii_upper(compression@)),
        code == 2 || code == 3 || code == 7 || code == 8 || code == 9 || code == 15 || code == 17
            || code == 18,
{
    let upper = to_uppercase(compression);
    quantization_code_of(upper.as_str())
}

/// llama.cpp's quantization parameters: thread count, target file type, and
/// the remaining fields, kept as they came.
pub struct LlamaModelQuantizeParams {
    pub nthread: i32,
    pub ftype: i32,
    pub padding: [u64; 32],
}

/// The default parameters with the target file type of `compression` and the
/// given thread count.
pub fn quantize_params(defaults: LlamaModelQuantizeParams, compression: &str, nthread: i32) -> (p:
    LlamaModelQuantizeParams)
    ensures
        p.ftype == quantization_code(uppercase_spec(compression@)),
        p.nthread == nthread,
        p.padding == defaults.padding,
{
    LlamaModelQuantizeParams { nthread, ftype: parse_quantization_type(compression), padding: defaults.padding }
}

/// Compression names ignore case: upper-casing an ASCII name a second time
/// changes nothing, so a name and its upper-case form give the same code.
pub proof fn law_quantization_ignores_case(name: Seq<char>)
    requires
        is_ascii_text(name),
    ensures
        is_ascii_text(ascii_upper(name)),
        ascii_upper(ascii_upper(name)) == ascii_upper(name),
        quantization_code(ascii_upper(ascii_upper(name))) == quantization_code(ascii_upper(name)),
{
    assert forall|i: int| 0 <= i < name.len() implies (#[trigger] ascii_upper(name)[i] as u32) < 128 by {
        assert(ascii_upper(name)[i] == ascii_upper_char(name[i]));
        assert((name[i] as u32) < 128);
    }
    assert(ascii_upper(ascii_upper(name)) =~= ascii_upper(name));
}

} // verus!
