//! Huge pages: what the memory report of the kernel says about them.
//!
//! On Linux the kernel reports its huge pages in `/proc/meminfo`, one
//! `label: number` a line, and the number of pages of one gigabyte in a
//! file of its own that holds the number alone. The functions here read
//! the contents of those files; other platforms have no such report.

use crate::advanced::HugePageSize;
use crate::platform::Platform;
use vstd::prelude::*;

verus! {

/// Whether the byte is a space or a tab.
pub open spec fn is_blank(b: u8) -> bool {
    b == 0x20 || b == 0x09
}

/// Whether the byte is a space, a tab, a line feed or a carriage return.
pub open spec fn is_space(b: u8) -> bool {
    is_blank(b) || b == 0x0A || b == 0x0D
}

/// Whether the byte is a decimal digit.
pub open spec fn is_digit(b: u8) -> bool {
    0x30 <= b <= 0x39
}

/// Whether a line begins at `at`: at the start of the text, or behind a
/// line feed.
pub open spec fn line_start(text: Seq<u8>, at: int) -> bool {
    0 <= at <= text.len() && (at == 0 || text[at - 1] == 0x0A)
}

/// Whether the text holds `label` at `at`.
pub open spec fn holds_at(text: Seq<u8>, at: int, label: Seq<u8>) -> bool {
    0 <= at && at + label.len() <= text.len() && text.subrange(at, at + label.len()) == label
}

/// The first position at or behind `from` where a line begins with
/// `label`.
pub open spec fn labelled_line(text: Seq<u8>, label: Seq<u8>, from: int) -> Option<int>
    decreases text.len() - from,
{
    if from < 0 || from >= text.len() {
        None
    } else if line_start(text, from) && holds_at(text, from, label) {
        Some(from)
    } else {
        labelled_line(text, label, from + 1)
    }
}

/// The first position at or behind `at` that holds no blank.
pub open spec fn skip_blanks(text: Seq<u8>, at: int) -> int
    decreases text.len() - at,
{
    if 0 <= at < text.len() && is_blank(text[at]) {
        skip_blanks(text, at + 1)
    } else {
        at
    }
}

/// The first position at or behind `at` that holds no space of any kind.
pub open spec fn skip_spaces(text: Seq<u8>, at: int) -> int
    decreases text.len() - at,
{
    if 0 <= at < text.len() && is_space(text[at]) {
        skip_spaces(text, at + 1)
    } else {
        at
    }
}

/// The first position at or behind `at` that holds no digit.
pub open spec fn digits_end(text: Seq<u8>, at: int) -> int
    decreases text.len() - at,
{
    if 0 <= at < text.len() && is_digit(text[at]) {
        digits_end(text, at + 1)
    } else {
        at
    }
}

/// The number that the digits from `from` up to `to` spell.
pub open spec fn digits_value(text: Seq<u8>, from: int, to: int) -> nat
    decreases to - from,
{
    if from >= to || to > text.len() || from < 0 {
        0
    } else {
        digits_value(text, from, to - 1) * 10 + (text[to - 1] - 0x30) as nat
    }
}

/// The number that stands at `at`: the digits from there on; `None` where
/// no digit stands there.
pub open spec fn number_at(text: Seq<u8>, at: int) -> Option<nat> {
    if digits_end(text, at) > at {
        Some(digits_value(text, at, digits_end(text, at)))
    } else {
        None
    }
}

/// The number of the first line that begins with `label`: what stands
/// behind the label and the blanks that follow it.
pub open spec fn labelled_number(text: Seq<u8>, label: Seq<u8>) -> Option<nat> {
    match labelled_line(text, label, 0) {
        Some(at) => number_at(text, skip_blanks(text, at + label.len())),
        None => None,
    }
}

/// The number that is all that the text holds but for spaces around it.
pub open spec fn lone_number(text: Seq<u8>) -> Option<nat> {
    let at = skip_spaces(text, 0);
    if digits_end(text, at) > at && skip_spaces(text, digits_end(text, at)) == text.len() {
        Some(digits_value(text, at, digits_end(text, at)))
    } else {
        None
    }
}

/// `n`, or the greatest `u64` where `n` is greater.
pub open spec fn capped(n: nat) -> u64 {
    if n <= u64::MAX {
        n as u64
    } else {
        u64::MAX
    }
}

/// Whether there is a number and it is `bound` or more.
pub open spec fn at_least(number: Option<nat>, bound: nat) -> bool {
    match number {
        Some(n) => n >= bound,
        None => false,
    }
}

/// The bytes `HugePages_Total:`.
pub open spec fn total_label() -> Seq<u8> {
    seq![
        0x48u8, 0x75u8, 0x67u8, 0x65u8, 0x50u8, 0x61u8, 0x67u8, 0x65u8, 0x73u8, 0x5Fu8, 0x54u8,
        0x6Fu8, 0x74u8, 0x61u8, 0x6Cu8, 0x3Au8,
    ]
}

/// The bytes `Hugepagesize:`.
pub open spec fn size_label() -> Seq<u8> {
    seq![
        0x48u8, 0x75u8, 0x67u8, 0x65u8, 0x70u8, 0x61u8, 0x67u8, 0x65u8, 0x73u8, 0x69u8, 0x7Au8,
        0x65u8, 0x3Au8,
    ]
}

/// Whether the text holds `label` at `at`.
fn starts_with_at(text: &[u8], at: usize, label: &[u8]) -> (r: bool)
    requires
        at <= text@.len(),
    ensures
        r == holds_at(text@, at as int, label@),
{
    let n: usize = text.len();
    if label.len() > n - at {
        return false;
    }
    let mut k: usize = 0;
    while k < label.len()
        invariant
            k <= label@.len(),
            n == text@.len(),
            at + label@.len() <= n,
            forall|j: int| 0 <= j < k ==> text@[at + j] == label@[j],
        decreases label@.len() - k,
    {
        if text[at + k] != label[k] {
            assert(text@.subrange(at as int, at + label@.len())[k as int] == text@[at + k]);
            return false;
        }
        k += 1;
    }
    assert(text@.subrange(at as int, at + label@.len()) =~= label@);
    true
}

/// The first position where a line begins with `label`.
fn find_line(text: &[u8], label: &[u8]) -> (r: Option<usize>)
    ensures
        match r {
            Some(at) => labelled_line(text@, label@, 0) == Some(at as int) && at + label@.len()
                <= text@.len(),
            None => labelled_line(text@, label@, 0) is None,
        },
{
    let mut at: usize = 0;
    while at < text.len()
        invariant
            at <= text@.len(),
            labelled_line(text@, label@, 0) == labelled_line(text@, label@, at as int),
        decreases text@.len() - at,
    {
        let at_line_start: bool = at == 0 || text[at - 1] == 0x0A;
        if at_line_start && starts_with_at(text, at, label) {
            return Some(at);
        }
        at += 1;
    }
    None
}

/// The first position at or behind `at` that holds no blank, or where
/// `all` is set no space of any kind.
fn skip(text: &[u8], at: usize, all: bool) -> (r: usize)
    requires
        at <= text@.len(),
    ensures
        at <= r <= text@.len(),
        all ==> r == skip_spaces(text@, at as int),
        !all ==> r == skip_blanks(text@, at as int),
{
    let mut i: usize = at;
    while i < text.len() && (text[i] == 0x20 || text[i] == 0x09 || (all && (text[i] == 0x0A
        || text[i] == 0x0D)))
        invariant
            at <= i <= text@.len(),
            all ==> skip_spaces(text@, at as int) == skip_spaces(text@, i as int),
            !all ==> skip_blanks(text@, at as int) == skip_blanks(text@, i as int),
        decreases text@.len() - i,
    {
        i += 1;
    }
    i
}

/// The number that stands at `at`, capped at the greatest `u64`, and the
/// position behind its digits.
fn read_number(text: &[u8], at: usize) -> (r: (Option<u64>, usize))
    requires
        at <= text@.len(),
    ensures
        r.1 == digits_end(text@, at as int),
        at <= r.1 <= text@.len(),
        r.0 == match number_at(text@, at as int) {
            Some(n) => Some(capped(n)),
            None => None,
        },
{
    let mut i: usize = at;
    let mut value: u64 = 0;
    while i < text.len() && 0x30 <= text[i] && text[i] <= 0x39
        invariant
            at <= i <= text@.len(),
            digits_end(text@, at as int) == digits_end(text@, i as int),
            value == capped(digits_value(text@, at as int, i as int)),
        decreases text@.len() - i,
    {
        let digit: u64 = (text[i] - 0x30) as u64;
        let ghost before = digits_value(text@, at as int, i as int);
        assert(digits_value(text@, at as int, i + 1) == before * 10 + digit);
        value = match value.checked_mul(10) {
            Some(v) => match v.checked_add(digit) {
                Some(w) => w,
                None => u64::MAX,
            },
            None => u64::MAX,
        };
        i += 1;
    }
    if i > at {
        (Some(value), i)
    } else {
        (None, i)
    }
}

/// The number of the first line that begins with `label`, capped at the
/// greatest `u64`.
fn read_labelled(text: &[u8], label: &[u8]) -> (r: Option<u64>)
    ensures
        r == match labelled_number(text@, label@) {
            Some(n) => Some(capped(n)),
            None => None,
        },
{
    let n: usize = text.len();
    match find_line(text, label) {
        Some(at) => {
            let start: usize = skip(text, at + label.len(), false);
            read_number(text, start).0
        },
        None => None,
    }
}

/// Whether the kernel has huge pages: on Linux, whether the memory report
/// gives a `HugePages_Total` above zero; never on other platforms.
pub fn is_supported(platform: Platform, meminfo: &[u8]) -> (r: bool)
    ensures
        r == (platform is Linux && at_least(labelled_number(meminfo@, total_label()), 1)),
{
    match platform {
        Platform::Linux => {
            let label: Vec<u8> = vec![
                0x48, 0x75, 0x67, 0x65, 0x50, 0x61, 0x67, 0x65, 0x73, 0x5F, 0x54, 0x6F, 0x74, 0x61,
                0x6C, 0x3A,
            ];
            assert(label@ =~= total_label());
            match read_labelled(meminfo, label.as_slice()) {
                Some(n) => n > 0,
                None => false,
            }
        },
        _ => false,
    }
}

/// The size of the huge pages that the kernel hands out by default. On
/// Linux the memory report gives a `Hugepagesize` in kilobytes: a
/// gigabyte or more means pages of a gigabyte, and anything else, or no
/// such line, pages of two megabytes. Windows has pages of two megabytes,
/// macOS has none.
pub fn default_huge_page_size(platform: Platform, meminfo: &[u8]) -> (r: Option<HugePageSize>)
    ensures
        r == match platform {
            Platform::Linux => if at_least(labelled_number(meminfo@, size_label()), 1048576) {
                Some(HugePageSize::OneGB)
            } else {
                Some(HugePageSize::TwoMB)
            },
            Platform::Windows => Some(HugePageSize::TwoMB),
            Platform::MacOs => None,
        },
{
    match platform {
        Platform::Linux => {
            let label: Vec<u8> = vec![
                0x48, 0x75, 0x67, 0x65, 0x70, 0x61, 0x67, 0x65, 0x73, 0x69, 0x7A, 0x65, 0x3A,
            ];
            assert(label@ =~= size_label());
            match read_labelled(meminfo, label.as_slice()) {
                Some(n) => if n >= 1048576 {
                    Some(HugePageSize::OneGB)
                } else {
                    Some(HugePageSize::TwoMB)
                },
                None => Some(HugePageSize::TwoMB),
            }
        },
        Platform::Windows => Some(HugePageSize::TwoMB),
        Platform::MacOs => None,
    }
}

/// Whether the kernel has huge pages of a gigabyte: on Linux, whether the
/// file that counts them holds a number above zero and nothing else;
/// never on other platforms.
pub fn is_1gb_supported(platform: Platform, nr_hugepages: &[u8]) -> (r: bool)
    ensures
        r == (platform is Linux && at_least(lone_number(nr_hugepages@), 1)),
{
    match platform {
        Platform::Linux => {
            let start: usize = skip(nr_hugepages, 0, true);
            let (number, end) = read_number(nr_hugepages, start);
            let rest: usize = skip(nr_hugepages, end, true);
            match number {
                Some(n) => rest == nr_hugepages.len() && n > 0,
                None => false,
            }
        },
        _ => false,
    }
}

} // verus!
