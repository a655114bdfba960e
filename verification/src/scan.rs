//! Locating the IL2CPP API table in the game's player module: the byte
//! pattern of the instruction that loads it, and the address that
//! instruction refers to.
use vstd::prelude::*;

verus! {

#[verifier::external_type_specification]
#[verifier::external_body]
pub struct ExPatternScanError(patternscan::Error);

/// What `patternscan::scan` gives for `bytes` and `pattern`: the match
/// offsets, or `None` when it fails (an invalid or over-long pattern).
pub uninterp spec fn patternscan_scan(bytes: Seq<u8>, pattern: Seq<char>) -> Option<Seq<usize>>;

/// Scans `image` for `pattern` with `patternscan::scan` over an in-memory
/// reader. Claimed: the outcome is a function of the bytes and the pattern
/// alone (reading from memory cannot fail); which offsets it reports is left
/// to the crate.
#[verifier::external_body]
fn scan_image(image: Vec<u8>, pattern: &str) -> (r: Result<Vec<usize>, patternscan::Error>)
    ensures
        match r {
            Ok(v) => patternscan_scan(image@, pattern@) == Some(v@),
            Err(_) => patternscan_scan(image@, pattern@) is None,
        },
{
    patternscan::scan(std::io::Cursor::new(image), pattern)
}

/// Why the table could not be located.
#[derive(Clone, Copy, Debug, PartialEq, Eq, Structural)]
pub enum TableScanError {
    /// The scan itself failed.
    ScanFailed,
    /// The pattern does not occur.
    NotFound,
}

/// The pattern of `mov rax, [rip+disp32]; lea rcx, [rip+disp32]; call rax`,
/// the instruction sequence that loads the API table.
pub open spec fn table_pattern() -> Seq<char> {
    "48 8B 05 ? ? ? ? 48 8D 0D ? ? ? ? FF D0"@
}

/// The offset of the first match, given what the scan gave.
pub open spec fn first_match(scan: Option<Seq<usize>>) -> Result<usize, TableScanError> {
    match scan {
        None => Err(TableScanError::ScanFailed),
        Some(offsets) => if offsets.len() > 0 {
            Ok(offsets[0])
        } else {
            Err(TableScanError::NotFound)
        },
    }
}

/// The first match offset of a scan outcome (`None` for a failed scan).
pub fn first_match_offset(scan: Option<Vec<usize>>) -> (r: Result<usize, TableScanError>)
    ensures
        r == first_match(
            match scan {
                Some(v) => Some(v@),
                None => None,
            },
        ),
{
    match scan {
        None => Err(TableScanError::ScanFailed),
        Some(offsets) => {
            if offsets.len() > 0 {
                Ok(offsets[0])
            } else {
                Err(TableScanError::NotFound)
            }
        },
    }
}

/// The offset in the module image of the instruction that loads the API
/// table: the first match of the table pattern.
pub fn find_table_instruction(image: Vec<u8>) -> (r: Result<usize, TableScanError>)
    ensures
        r == first_match(patternscan_scan(image@, table_pattern())),
{
    let scan = match scan_image(image, "48 8B 05 ? ? ? ? 48 8D 0D ? ? ? ? FF D0") {
        Ok(v) => Some(v),
        Err(_) => None,
    };
    first_match_offset(scan)
}

/// The address a 7-byte RIP-relative `mov` at `instruction` refers to: the
/// address after the instruction plus the signed 32-bit displacement.
pub fn rip_relative_target(instruction: usize, displacement: i32) -> (r: usize)
    requires
        0 <= instruction + 7 + displacement <= usize::MAX,
    ensures
        r == instruction + 7 + displacement,
{
    if displacement >= 0 {
        instruction + 7 + displacement as usize
    } else {
        let back: usize = (-(displacement as i64)) as usize;
        if back <= instruction {
            instruction - back + 7
        } else {
            7 - (back - instruction)
        }
    }
}

} // verus!
