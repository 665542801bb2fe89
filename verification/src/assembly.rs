//! The assembly text for a classified key: one constant definition and one
//! comparison sequence for each segment, in segment order.

use vstd::prelude::*;
use vstd::string::StringExecFns;
use crate::segment::SegmentClassification;
use crate::text::{decimal_digits, push_decimal, push_hex};

verus! {

/// The definition of the constant of segment `index`.
pub open spec fn constant_line(index: nat, c: SegmentClassification) -> Seq<char> {
    ".equ EXPECTED_ADMIN_KEY_"@ + decimal_digits(index) + ", 0x"@ + c.constant_digits() + "\n"@
}

/// The comparison of segment `index` with its constant: with the constant as
/// an immediate operand where the segment is compatible, through a register
/// that is loaded with the 64-bit constant otherwise. A blank line ends it.
pub open spec fn comparison_block(index: nat, c: SegmentClassification) -> Seq<char> {
    let load = "  ldxdw r2, [r1+"@ + decimal_digits(8 * index) + "]\n"@;
    if c.compatible() {
        load + "  jne r2, EXPECTED_ADMIN_KEY_"@ + decimal_digits(index) + ", abort\n"@ + "\n"@
    } else {
        load + "  lddw r3, EXPECTED_ADMIN_KEY_"@ + decimal_digits(index) + "\n"@
            + "  jne r2, r3, abort\n"@ + "\n"@
    }
}

/// The constant definitions of the four segments.
pub open spec fn constants_text(cs: Seq<SegmentClassification>) -> Seq<char> {
    constant_line(0, cs[0]) + constant_line(1, cs[1]) + constant_line(2, cs[2]) + constant_line(
        3,
        cs[3],
    )
}

/// The comparison sequences of the four segments.
pub open spec fn comparisons_text(cs: Seq<SegmentClassification>) -> Seq<char> {
    comparison_block(0, cs[0]) + comparison_block(1, cs[1]) + comparison_block(2, cs[2])
        + comparison_block(3, cs[3])
}

/// Appends the constant definition of segment `index`.
pub fn push_constant_line(out: &mut String, index: usize, c: &SegmentClassification)
    requires
        index < 4,
    ensures
        final(out)@ == old(out)@ + constant_line(index as nat, *c),
{
    out.append(".equ EXPECTED_ADMIN_KEY_");
    push_decimal(out, index as u64);
    out.append(", 0x");
    match c {
        SegmentClassification::Immediate(_) => push_hex(out, c.constant(), 8),
        SegmentClassification::Wide(_) => push_hex(out, c.constant(), 16),
    }
    out.append("\n");
    assert(out@ =~= old(out)@ + constant_line(index as nat, *c));
}

/// Appends the comparison sequence of segment `index`.
pub fn push_comparison_block(out: &mut String, index: usize, c: &SegmentClassification)
    requires
        index < 4,
    ensures
        final(out)@ == old(out)@ + comparison_block(index as nat, *c),
{
    out.append("  ldxdw r2, [r1+");
    push_decimal(out, (index * 8) as u64);
    out.append("]\n");
    if c.is_compatible() {
        out.append("  jne r2, EXPECTED_ADMIN_KEY_");
        push_decimal(out, index as u64);
        out.append(", abort\n");
    } else {
        out.append("  lddw r3, EXPECTED_ADMIN_KEY_");
        push_decimal(out, index as u64);
        out.append("\n");
        out.append("  jne r2, r3, abort\n");
    }
    out.append("\n");
    assert(out@ =~= old(out)@ + comparison_block(index as nat, *c));
}

/// The constant definitions of the four segments, in segment order.
pub fn render_constants(classes: &[SegmentClassification; 4]) -> (s: String)
    ensures
        s@ == constants_text(classes@),
{
    let mut s = String::new();
    push_constant_line(&mut s, 0, &classes[0]);
    push_constant_line(&mut s, 1, &classes[1]);
    push_constant_line(&mut s, 2, &classes[2]);
    push_constant_line(&mut s, 3, &classes[3]);
    assert(s@ =~= constants_text(classes@));
    s
}

/// The comparison sequences of the four segments, in segment order.
pub fn render_comparisons(classes: &[SegmentClassification; 4]) -> (s: String)
    ensures
        s@ == comparisons_text(classes@),
{
    let mut s = String::new();
    push_comparison_block(&mut s, 0, &classes[0]);
    push_comparison_block(&mut s, 1, &classes[1]);
    push_comparison_block(&mut s, 2, &classes[2]);
    push_comparison_block(&mut s, 3, &classes[3]);
    assert(s@ =~= comparisons_text(classes@));
    s
}

} // verus!
