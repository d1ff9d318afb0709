//! The output-format selector: the two renderer names, matched
//! case-insensitively over ASCII; anything else is a configuration error.

use vstd::prelude::*;

use crate::lang::eq_bytes;

verus! {

/// Which renderer produces the document.
#[derive(Clone, Copy, Debug, PartialEq, Eq, Structural)]
pub enum OutputFormat {
    Markdown,
    Xml,
}

/// ASCII lowercase of one byte.
pub open spec fn spec_lower_byte(b: u8) -> u8 {
    if 65 <= b <= 90 {
        (b + 32) as u8
    } else {
        b
    }
}

/// ASCII lowercase of a byte string.
pub open spec fn spec_lower(s: Seq<u8>) -> Seq<u8> {
    s.map_values(|b: u8| spec_lower_byte(b))
}

/// The recognized selector values, after ASCII lowering: "markdown" and
/// "md" name the Markdown renderer, "xml" the tagged-markup renderer.
pub open spec fn spec_parse_output_format(s: Seq<u8>) -> Option<OutputFormat> {
    let l = spec_lower(s);
    if l == seq![109u8, 97u8, 114u8, 107u8, 100u8, 111u8, 119u8, 110u8] || l == seq![109u8, 100u8] {
        Some(OutputFormat::Markdown)
    } else if l == seq![120u8, 109u8, 108u8] {
        Some(OutputFormat::Xml)
    } else {
        None
    }
}

/// Lower a byte string over ASCII.
fn ascii_lower(s: &Vec<u8>) -> (r: Vec<u8>)
    ensures
        r@ == spec_lower(s@),
{
    let mut r: Vec<u8> = Vec::new();
    let n = s.len();
    let mut i: usize = 0;
    while i < n
        invariant
            i <= n,
            n == s@.len(),
            r@.len() == i,
            forall|j: int| 0 <= j < i ==> r@[j] == spec_lower_byte(s@[j]),
        decreases n - i,
    {
        let b = s[i];
        if 65 <= b && b <= 90 {
            r.push(b + 32);
        } else {
            r.push(b);
        }
        i = i + 1;
    }
    proof {
        assert(r@ =~= spec_lower(s@));
    }
    r
}

/// Parse an output-format selector, case-insensitively over ASCII; an
/// unrecognized value yields nothing, a configuration error.
pub fn parse_output_format(name: &Vec<u8>) -> (r: Option<OutputFormat>)
    ensures
        r == spec_parse_output_format(name@),
{
    let l = ascii_lower(name);
    let a_markdown: [u8; 8] = [109, 97, 114, 107, 100, 111, 119, 110];
    let a_md: [u8; 2] = [109, 100];
    let a_xml: [u8; 3] = [120, 109, 108];
    proof {
        assert(a_markdown@ =~= seq![109u8, 97u8, 114u8, 107u8, 100u8, 111u8, 119u8, 110u8]);
        assert(a_md@ =~= seq![109u8, 100u8]);
        assert(a_xml@ =~= seq![120u8, 109u8, 108u8]);
    }
    if eq_bytes(&l, a_markdown.as_slice()) || eq_bytes(&l, a_md.as_slice()) {
        Some(OutputFormat::Markdown)
    } else if eq_bytes(&l, a_xml.as_slice()) {
        Some(OutputFormat::Xml)
    } else {
        None
    }
}

} // verus!
