//! Text formatting of the benchmark reports: compact byte sizes and the
//! fixed-width metadata lines of the report header.

use crate::text::{decimal, pad_right, push_decimal, push_padded};
use vstd::prelude::*;

verus! {

/// `"<n> B"` below one KiB, else `"<n / 1024> KiB"`.
pub open spec fn size_text(bytes: nat) -> Seq<char> {
    if bytes < 1024 {
        decimal(bytes) + " B"@
    } else {
        decimal(bytes / 1024) + " KiB"@
    }
}

/// Like [`size_text`], with whole MiB from one MiB up.
pub open spec fn size_text_mib(n: nat) -> Seq<char> {
    if n >= 1024 * 1024 {
        decimal(n / (1024 * 1024)) + " MiB"@
    } else if n >= 1024 {
        decimal(n / 1024) + " KiB"@
    } else {
        decimal(n) + " B"@
    }
}

/// `"| <label, padded to 14> : <value, padded to 62> |"`.
pub open spec fn metadata_line(label: Seq<char>, value: Seq<char>) -> Seq<char> {
    "| "@ + pad_right(label, 14) + ": "@ + pad_right(value, 62) + " |"@
}

/// Compact size for the report tables: whole KiB from 1024 bytes up.
pub fn format_size(bytes: usize) -> (r: String)
    ensures
        r@ == size_text(bytes as nat),
{
    let mut s = String::new();
    if bytes < 1024 {
        push_decimal(&mut s, bytes);
        s.append(" B");
    } else {
        push_decimal(&mut s, bytes / 1024);
        s.append(" KiB");
    }
    s
}

/// Compact size with MiB, KiB or B.
pub fn fmt_size(n: usize) -> (r: String)
    ensures
        r@ == size_text_mib(n as nat),
{
    let mut s = String::new();
    if n >= 1024 * 1024 {
        push_decimal(&mut s, n / (1024 * 1024));
        s.append(" MiB");
    } else if n >= 1024 {
        push_decimal(&mut s, n / 1024);
        s.append(" KiB");
    } else {
        push_decimal(&mut s, n);
        s.append(" B");
    }
    s
}

/// One `label : value` line of the report header, framed and padded.
pub fn format_metadata_line(label: &str, value: &str) -> (r: String)
    ensures
        r@ == metadata_line(label@, value@),
{
    let mut s = String::new();
    s.append("| ");
    push_padded(&mut s, label, 14);
    s.append(": ");
    push_padded(&mut s, value, 62);
    s.append(" |");
    s
}

} // verus!
