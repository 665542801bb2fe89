//! The texts of a search: the report on a found key, the file that stores
//! it, and the conversion of a stored keypair to assembly constants.

use vstd::prelude::*;
use vstd::string::StringExecFns;
use crate::assembly::{comparisons_text, constants_text, render_comparisons, render_constants};
use crate::batch::{batch_totals, total_found, total_wanted, BatchPattern};
use crate::keys::{address_text, encode_address, hex_encode, json_byte_array, json_bytes,
    json_error_text, keypair_accepts, keypair_public_image, signature_error_text, KeyMaterial};
use crate::segment::{classify_segments, classify_spec, immediate_of, le_word, segment_of,
    sign_extend};
use crate::text::{decimal_digits, hex_digits, hex_text, push_decimal, push_hex,
    push_signed_decimal, signed_decimal_digits};

verus! {

/// The decimal numbers of the bytes, with a comma between two of them.
pub open spec fn joined_decimals(bytes: Seq<u8>) -> Seq<char>
    decreases bytes.len(),
{
    if bytes.len() == 0 {
        Seq::empty()
    } else if bytes.len() == 1 {
        decimal_digits(bytes[0] as nat)
    } else {
        joined_decimals(bytes.drop_last()) + ","@ + decimal_digits(bytes.last() as nat)
    }
}

/// The stored form of secret material: its bytes as decimal numbers,
/// separated by commas, without white space, between `[` and `]`.
pub open spec fn keypair_json_text(secret: Seq<u8>) -> Seq<char> {
    "["@ + joined_decimals(secret) + "]"@
}

/// The name of the file that stores the key with this text form.
pub open spec fn keypair_file_text(address: Seq<char>) -> Seq<char> {
    address + ".json"@
}

/// The stored form of secret material.
pub fn keypair_json(secret: &[u8]) -> (s: String)
    ensures
        s@ == keypair_json_text(secret@),
{
    let mut s = String::new();
    s.append("[");
    let n: usize = secret.len();
    let mut i: usize = 0;
    while i < n
        invariant
            n == secret@.len(),
            i <= n,
            s@ == "["@ + joined_decimals(secret@.take(i as int)),
        decreases n - i,
    {
        let ghost before = secret@.take(i as int);
        let ghost after = secret@.take(i + 1);
        assert(after.drop_last() =~= before);
        if i > 0 {
            s.append(",");
        }
        push_decimal(&mut s, secret[i] as u64);
        assert(s@ =~= "["@ + joined_decimals(after));
        i += 1;
    }
    assert(secret@.take(n as int) =~= secret@);
    s.append("]");
    s
}

/// The name of the file that stores the key with this text form.
pub fn keypair_file_name(address: &str) -> (s: String)
    ensures
        s@ == keypair_file_text(address@),
{
    let mut s = String::new();
    s.append(address);
    s.append(".json");
    assert(s@ =~= keypair_file_text(address@));
    s
}

/// A file to write: the stored form of a found key.
#[derive(Debug)]
pub struct StoredKey {
    /// The name of the file, in the working directory.
    pub file_name: String,
    /// The text of the file.
    pub contents: String,
}

/// The file that stores a found key: it is named after the text form of the
/// public key and holds the secret material.
pub fn storage_of(key: &KeyMaterial) -> (file: StoredKey)
    ensures
        file.file_name@ == keypair_file_text(address_text(key.public@)),
        file.contents@ == keypair_json_text(key.secret@),
{
    let address = key.address();
    StoredKey {
        file_name: keypair_file_name(address.as_str()),
        contents: keypair_json(key.secret.as_slice()),
    }
}

/// The line of one target in the summary of a batch.
pub open spec fn target_line_text(target: BatchPattern) -> Seq<char> {
    "  "@ + target.pattern_str@ + ": "@ + decimal_digits(target.current_count as nat) + "/"@
        + decimal_digits(target.target_count as nat) + "\n"@
}

/// The lines of the targets, in collection order.
pub open spec fn target_lines_text(targets: Seq<BatchPattern>) -> Seq<char>
    decreases targets.len(),
{
    if targets.len() == 0 {
        Seq::empty()
    } else {
        target_lines_text(targets.drop_last()) + target_line_text(targets.last())
    }
}

/// The summary of a batch: the number of targets with the keys found and
/// wanted over all of them, then one line for each target.
pub open spec fn batch_summary_text(targets: Seq<BatchPattern>) -> Seq<char> {
    "Batch processing "@ + decimal_digits(targets.len()) + " patterns ("@ + decimal_digits(
        total_found(targets),
    ) + "/"@ + decimal_digits(total_wanted(targets)) + " keys found)\n"@ + target_lines_text(
        targets,
    )
}

/// The summary of a batch; `None` where a sum over the targets does not fit
/// `usize`.
pub fn batch_summary(targets: &[BatchPattern]) -> (r: Option<String>)
    ensures
        match r {
            Some(s) => s@ == batch_summary_text(targets@),
            None => total_found(targets@) > usize::MAX || total_wanted(targets@) > usize::MAX,
        },
{
    let sums = match batch_totals(targets) {
        Some(sums) => sums,
        None => {
            return None;
        },
    };
    let n: usize = targets.len();
    let mut s = String::new();
    s.append("Batch processing ");
    push_decimal(&mut s, n as u64);
    s.append(" patterns (");
    push_decimal(&mut s, sums.0 as u64);
    s.append("/");
    push_decimal(&mut s, sums.1 as u64);
    s.append(" keys found)\n");
    let ghost head = s@;
    assert(head =~= "Batch processing "@ + decimal_digits(targets@.len()) + " patterns ("@
        + decimal_digits(total_found(targets@)) + "/"@ + decimal_digits(total_wanted(targets@))
        + " keys found)\n"@);
    let mut i: usize = 0;
    while i < n
        invariant
            n == targets@.len(),
            i <= n,
            s@ == head + target_lines_text(targets@.take(i as int)),
        decreases n - i,
    {
        let ghost before = s@;
        assert(targets@.take(i + 1).drop_last() =~= targets@.take(i as int));
        s.append("  ");
        s.append(targets[i].pattern_str.as_str());
        s.append(": ");
        push_decimal(&mut s, targets[i].current_count as u64);
        s.append("/");
        push_decimal(&mut s, targets[i].target_count as u64);
        s.append("\n");
        assert(s@ =~= before + target_line_text(targets@[i as int]));
        assert(s@ =~= head + target_lines_text(targets@.take(i + 1)));
        i += 1;
    }
    assert(targets@.take(n as int) =~= targets@);
    Some(s)
}

/// The line that reports a key credited to the target with this label.
pub open spec fn batch_match_text(label: Seq<char>, address: Seq<char>) -> Seq<char> {
    "Found key for '"@ + label + "': "@ + address + "\n"@
}

/// The line that reports a key credited to the target with this label.
pub fn batch_match_line(label: &str, address: &str) -> (s: String)
    ensures
        s@ == batch_match_text(label@, address@),
{
    let mut s = String::new();
    s.append("Found key for '");
    s.append(label);
    s.append("': ");
    s.append(address);
    s.append("\n");
    assert(s@ =~= batch_match_text(label@, address@));
    s
}

/// Four bytes of a segment, from `at` on, in hexadecimal with a space
/// between two bytes.
pub open spec fn half_dump_text(seg: Seq<u8>, at: int) -> Seq<char> {
    hex_digits(seg[at] as nat, 2) + " "@ + hex_digits(seg[at + 1] as nat, 2) + " "@ + hex_digits(
        seg[at + 2] as nat,
        2,
    ) + " "@ + hex_digits(seg[at + 3] as nat, 2)
}

/// The eight bytes of a segment in hexadecimal, with a space between two
/// bytes and a bar between the low and the high half.
pub open spec fn segment_dump_text(seg: Seq<u8>) -> Seq<char> {
    half_dump_text(seg, 0) + " | "@ + half_dump_text(seg, 4)
}

/// The head of the report on a key that the immediate search has found:
/// its number, the worker, and the key in both text forms.
pub open spec fn immediate_head_text(
    key_number: nat,
    count: nat,
    worker: nat,
    public: Seq<u8>,
    address: Seq<char>,
) -> Seq<char> {
    "\n✅ FOUND MATCHING KEYPAIR #"@ + decimal_digits(key_number) + "/"@ + decimal_digits(count)
        + "\n"@ + "Thread: "@ + decimal_digits(worker) + "\n"@ + "Public Key: "@ + hex_text(
        public,
    ) + "\n"@ + "Public Key (base58): "@ + address + "\n"@
}

/// The line that says where the matched segment lies.
pub open spec fn segment_place_text(segment: nat) -> Seq<char> {
    "Matched Segment: "@ + decimal_digits(segment) + " (bytes "@ + decimal_digits(8 * segment)
        + "-"@ + decimal_digits(8 * segment + 7) + ")\n"@
}

/// The line that shows the bytes of the matched segment.
pub open spec fn segment_bytes_text(seg: Seq<u8>, segment: nat) -> Seq<char> {
    "Segment "@ + decimal_digits(segment) + " bytes (hex): "@ + segment_dump_text(seg) + "\n"@
}

/// The line that shows the low 32 bits of the segment as a signed number.
pub open spec fn value32_text(seg: Seq<u8>) -> Seq<char> {
    "  i32 value: "@ + signed_decimal_digits(immediate_of(seg)) + " (0x"@ + hex_digits(
        le_word(seg, 0),
        8,
    ) + ")\n"@
}

/// The line that shows the same number sign-extended to 64 bits.
pub open spec fn value64_text(seg: Seq<u8>) -> Seq<char> {
    "  i64 value: "@ + signed_decimal_digits(immediate_of(seg)) + " (0x"@ + hex_digits(
        sign_extend(le_word(seg, 0)),
        16,
    ) + ")\n"@
}

/// The part of the report on the segment that matched: where it lies, its
/// bytes, and its low 32 bits as a signed number alone and sign-extended to
/// 64 bits. A blank line ends it.
pub open spec fn immediate_segment_text(public: Seq<u8>, segment: nat) -> Seq<char> {
    let seg = segment_of(public, segment as int);
    segment_place_text(segment) + segment_bytes_text(seg, segment) + value32_text(seg)
        + value64_text(seg) + "\n"@
}

/// The report on a key that the immediate search has found.
pub open spec fn immediate_match_text(
    key_number: nat,
    count: nat,
    worker: nat,
    public: Seq<u8>,
    address: Seq<char>,
    segment: nat,
) -> Seq<char> {
    immediate_head_text(key_number, count, worker, public, address) + immediate_segment_text(
        public,
        segment,
    )
}

/// Appends four bytes of `public`, from `from` on, as a dump.
fn push_half_dump(out: &mut String, public: &[u8; 32], from: usize)
    requires
        from + 4 <= 32,
    ensures
        final(out)@ == old(out)@ + half_dump_text(public@, from as int),
{
    push_hex(out, public[from] as u64, 2);
    out.append(" ");
    push_hex(out, public[from + 1] as u64, 2);
    out.append(" ");
    push_hex(out, public[from + 2] as u64, 2);
    out.append(" ");
    push_hex(out, public[from + 3] as u64, 2);
    assert(out@ =~= old(out)@ + half_dump_text(public@, from as int));
}

/// Appends the bytes of segment `segment` of `public` as a dump.
fn push_segment_dump(out: &mut String, public: &[u8; 32], segment: usize)
    requires
        segment < 4,
    ensures
        final(out)@ == old(out)@ + segment_dump_text(segment_of(public@, segment as int)),
{
    let at: usize = segment * 8;
    let ghost seg = segment_of(public@, segment as int);
    assert(forall|j: int| 0 <= j < 8 ==> seg[j] == public@[at + j]);
    assert(half_dump_text(seg, 0) == half_dump_text(public@, at as int));
    assert(half_dump_text(seg, 4) == half_dump_text(public@, at + 4));
    push_half_dump(out, public, at);
    out.append(" | ");
    push_half_dump(out, public, at + 4);
    assert(out@ =~= old(out)@ + segment_dump_text(seg));
}

/// The low 32 bits of segment `segment` of `public`: as an unsigned number,
/// and as a signed one.
fn low_word(public: &[u8; 32], segment: usize) -> (r: (u64, i64))
    requires
        segment < 4,
    ensures
        r.0 == le_word(segment_of(public@, segment as int), 0),
        r.1 == immediate_of(segment_of(public@, segment as int)),
{
    let at: usize = segment * 8;
    let ghost seg = segment_of(public@, segment as int);
    assert(forall|j: int| 0 <= j < 8 ==> seg[j] == public@[at + j]);
    let low: u64 = public[at] as u64 + 0x100 * (public[at + 1] as u64) + 0x1_0000 * (public[at
        + 2] as u64) + 0x100_0000 * (public[at + 3] as u64);
    let signed: i64 = if low >= 0x8000_0000 {
        low as i64 - 0x1_0000_0000
    } else {
        low as i64
    };
    (low, signed)
}

/// Appends the line that says where the matched segment lies.
fn push_segment_place(out: &mut String, segment: usize)
    requires
        segment < 4,
    ensures
        final(out)@ == old(out)@ + segment_place_text(segment as nat),
{
    out.append("Matched Segment: ");
    push_decimal(out, segment as u64);
    out.append(" (bytes ");
    push_decimal(out, (segment * 8) as u64);
    out.append("-");
    push_decimal(out, (segment * 8 + 7) as u64);
    out.append(")\n");
    assert(out@ =~= old(out)@ + segment_place_text(segment as nat));
}

/// Appends the line that shows the bytes of the matched segment.
fn push_segment_bytes(out: &mut String, public: &[u8; 32], segment: usize)
    requires
        segment < 4,
    ensures
        final(out)@ == old(out)@ + segment_bytes_text(
            segment_of(public@, segment as int),
            segment as nat,
        ),
{
    out.append("Segment ");
    push_decimal(out, segment as u64);
    out.append(" bytes (hex): ");
    push_segment_dump(out, public, segment);
    out.append("\n");
    assert(out@ =~= old(out)@ + segment_bytes_text(
        segment_of(public@, segment as int),
        segment as nat,
    ));
}

/// Appends the two lines that show the low 32 bits of the segment.
fn push_segment_values(out: &mut String, public: &[u8; 32], segment: usize)
    requires
        segment < 4,
    ensures
        final(out)@ == old(out)@ + value32_text(segment_of(public@, segment as int))
            + value64_text(segment_of(public@, segment as int)),
{
    let ghost seg = segment_of(public@, segment as int);
    let words = low_word(public, segment);
    let extended: u64 = if words.0 >= 0x8000_0000 {
        words.0 + 0xFFFF_FFFF_0000_0000
    } else {
        words.0
    };
    out.append("  i32 value: ");
    push_signed_decimal(out, words.1);
    out.append(" (0x");
    push_hex(out, words.0, 8);
    out.append(")\n");
    assert(out@ =~= old(out)@ + value32_text(seg));
    let ghost middle = out@;
    out.append("  i64 value: ");
    push_signed_decimal(out, words.1);
    out.append(" (0x");
    push_hex(out, extended, 16);
    out.append(")\n");
    assert(out@ =~= middle + value64_text(seg));
}

/// Appends the part of the report on the segment that matched.
fn push_immediate_segment(out: &mut String, public: &[u8; 32], segment: usize)
    requires
        segment < 4,
    ensures
        final(out)@ == old(out)@ + immediate_segment_text(public@, segment as nat),
{
    push_segment_place(out, segment);
    push_segment_bytes(out, public, segment);
    push_segment_values(out, public, segment);
    out.append("\n");
    assert(out@ =~= old(out)@ + immediate_segment_text(public@, segment as nat));
}

/// The report on a key that the immediate search has found: its number
/// among the `count` wanted, the worker that found it, the key in
/// hexadecimal and in its text form `address`, and the segment that matched.
pub fn immediate_match_report(
    key_number: usize,
    count: usize,
    worker: usize,
    public: &[u8; 32],
    address: &str,
    segment: usize,
) -> (s: String)
    requires
        segment < 4,
    ensures
        s@ == immediate_match_text(
            key_number as nat,
            count as nat,
            worker as nat,
            public@,
            address@,
            segment as nat,
        ),
{
    let hex = hex_encode(public.as_slice());
    let mut s = String::new();
    s.append("\n✅ FOUND MATCHING KEYPAIR #");
    push_decimal(&mut s, key_number as u64);
    s.append("/");
    push_decimal(&mut s, count as u64);
    s.append("\n");
    s.append("Thread: ");
    push_decimal(&mut s, worker as u64);
    s.append("\n");
    s.append("Public Key: ");
    s.append(hex.as_str());
    s.append("\n");
    s.append("Public Key (base58): ");
    s.append(address);
    s.append("\n");
    assert(s@ =~= immediate_head_text(
        key_number as nat,
        count as nat,
        worker as nat,
        public@,
        address@,
    ));
    push_immediate_segment(&mut s, public, segment);
    s
}

/// The conversion of a key to assembly: the key in both text forms, the
/// constant of each segment, and the comparison of each segment.
pub open spec fn address_report_text(public: Seq<u8>, address: Seq<char>) -> Seq<char> {
    let classes = Seq::new(4, |i: int| classify_spec(segment_of(public, i)));
    "Public Key: "@ + address + "\n"@ + "\nPublic Key (hex): "@ + hex_text(public) + "\n"@
        + "\n=== Assembly Constants ===\n"@ + constants_text(classes)
        + "\n=== Assembly Comparison Code ===\n"@ + comparisons_text(classes)
}

/// The conversion of the key `public`, whose text form is `address`, to
/// assembly constants and comparison code.
pub fn address_report(public: &[u8; 32], address: &str) -> (s: String)
    ensures
        s@ == address_report_text(public@, address@),
{
    let classes = classify_segments(public);
    let ghost expected = Seq::new(4, |i: int| classify_spec(segment_of(public@, i)));
    assert(classes@ =~= expected) by {
        assert forall|i: int| 0 <= i < 4 implies classes@[i] == expected[i] by {
            assert(classes@[i] == classify_spec(segment_of(public@, i)));
        }
    }
    let hex = hex_encode(public.as_slice());
    let constants = render_constants(&classes);
    let comparisons = render_comparisons(&classes);
    let mut s = String::new();
    s.append("Public Key: ");
    s.append(address);
    s.append("\n");
    s.append("\nPublic Key (hex): ");
    s.append(hex.as_str());
    s.append("\n");
    s.append("\n=== Assembly Constants ===\n");
    s.append(constants.as_str());
    s.append("\n=== Assembly Comparison Code ===\n");
    s.append(comparisons.as_str());
    assert(s@ =~= address_report_text(public@, address@));
    s
}

/// Why a stored keypair could not be converted.
#[derive(Clone, Copy, Debug, PartialEq, Eq, Structural)]
pub enum ConvertFault {
    /// The text is no JSON array of bytes.
    MalformedJson,
    /// The bytes are no keypair.
    InvalidKeypair,
}

/// A failed conversion: what went wrong, and what the library that found
/// the fault says of it.
#[derive(Clone, Debug, PartialEq, Eq)]
pub struct ConvertError {
    /// What went wrong.
    pub fault: ConvertFault,
    /// The text of the underlying error, unchanged.
    pub detail: String,
}

impl ConvertError {
    /// The message of the error: the text of the underlying error.
    pub fn message(&self) -> (s: String)
        ensures
            s@ == self.detail@,
    {
        self.detail.as_str().to_owned()
    }
}

/// The text that is handed on for a keypair that is refused.
pub open spec fn keypair_fault_text() -> Seq<char> {
    "signature error"@
}

/// The public key of the keypair that a stored text holds.
pub open spec fn stored_public_key(text: Seq<char>) -> Result<Seq<u8>, ConvertFault> {
    match json_byte_array(text) {
        None => Err(ConvertFault::MalformedJson),
        Some(bytes) => if keypair_accepts(bytes) {
            Ok(bytes.subrange(32, 64))
        } else {
            Err(ConvertFault::InvalidKeypair)
        },
    }
}

/// Reads the public key of the keypair that the text of a keypair file
/// holds. An error carries the text of the JSON reader's or the keypair
/// library's error.
pub fn read_public_key(json_content: &str) -> (r: Result<[u8; 32], ConvertError>)
    ensures
        match r {
            Ok(public) => stored_public_key(json_content@) == Ok::<Seq<u8>, ConvertFault>(
                public@,
            ),
            Err(e) => {
                &&& stored_public_key(json_content@) == Err::<Seq<u8>, ConvertFault>(e.fault)
                &&& e.fault == ConvertFault::InvalidKeypair ==> e.detail@ == keypair_fault_text()
            },
        },
{
    match json_bytes(json_content) {
        Err(e) => Err(
            ConvertError { fault: ConvertFault::MalformedJson, detail: json_error_text(&e) },
        ),
        Ok(bytes) => match keypair_public_image(bytes.as_slice()) {
            Err(e) => Err(
                ConvertError {
                    fault: ConvertFault::InvalidKeypair,
                    detail: signature_error_text(&e),
                },
            ),
            Ok(public) => Ok(public),
        },
    }
}

/// Converts the text of a keypair file to the report on its public key.
pub fn address_from_keypair(json_content: &str) -> (r: Result<String, ConvertError>)
    ensures
        match r {
            Ok(report) => match stored_public_key(json_content@) {
                Ok(public) => report@ == address_report_text(public, address_text(public)),
                Err(_) => false,
            },
            Err(e) => {
                &&& stored_public_key(json_content@) == Err::<Seq<u8>, ConvertFault>(e.fault)
                &&& e.fault == ConvertFault::InvalidKeypair ==> e.detail@ == keypair_fault_text()
            },
        },
{
    match read_public_key(json_content) {
        Err(e) => Err(e),
        Ok(public) => {
            let address = encode_address(&public);
            Ok(address_report(&public, address.as_str()))
        },
    }
}

} // verus!
