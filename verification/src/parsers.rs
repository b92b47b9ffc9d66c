//! Line-oriented grammar of the control plane's diagnostic output.
//!
//! The text that the control commands print is turned into typed records
//! here. Every parser takes the raw bytes and a start position, and returns
//! the position one past what it consumed together with the parsed value, or
//! `None` when the input does not match. The meaning of each parser is fixed
//! by a specification function over the byte sequence, and every executable
//! parser is proved to return exactly what its specification says.

use vstd::prelude::*;

use crate::NodeState;

verus! {

/// Classification of one parsed topology line: a validator node or the
/// sidecar process paired with it.
#[derive(Debug, PartialEq, Eq, Clone, Copy, Structural)]
pub enum RawNodeType {
    CasperNode(u8, u8, NodeState),
    CasperSidecar(u8, u8, NodeState),
}

// ---------------------------------------------------------------------------
// Byte classes
// ---------------------------------------------------------------------------

pub open spec fn is_digit_byte(b: u8) -> bool {
    '0' as u8 <= b && b <= '9' as u8
}

pub open spec fn is_space_tab_byte(b: u8) -> bool {
    b == ' ' as u8 || b == '\t' as u8
}

pub open spec fn is_multispace_byte(b: u8) -> bool {
    is_space_tab_byte(b) || b == '\n' as u8 || b == '\r' as u8
}

pub open spec fn is_line_break_byte(b: u8) -> bool {
    b == '\n' as u8 || b == '\r' as u8
}

pub open spec fn digit_pred() -> spec_fn(u8) -> bool {
    |b: u8| is_digit_byte(b)
}

pub open spec fn space_tab_pred() -> spec_fn(u8) -> bool {
    |b: u8| is_space_tab_byte(b)
}

pub open spec fn multispace_pred() -> spec_fn(u8) -> bool {
    |b: u8| is_multispace_byte(b)
}

pub open spec fn line_content_pred() -> spec_fn(u8) -> bool {
    |b: u8| !is_line_break_byte(b)
}

// ---------------------------------------------------------------------------
// Specification-level combinators
// ---------------------------------------------------------------------------

/// First position at or after `pos` whose byte fails `p`, or the end of the
/// input if every remaining byte satisfies `p`.
pub open spec fn spec_run_end(s: Seq<u8>, pos: int, p: spec_fn(u8) -> bool) -> int
    decreases s.len() - pos,
    when 0 <= pos <= s.len()
{
    if pos < s.len() && p(s[pos]) {
        spec_run_end(s, pos + 1, p)
    } else {
        pos
    }
}

/// The literal `t` stands in `s` at exactly position `pos`.
pub open spec fn spec_match_at(s: Seq<u8>, pos: int, t: Seq<u8>) -> bool {
    &&& 0 <= pos
    &&& pos + t.len() <= s.len()
    &&& s.subrange(pos, pos + t.len()) == t
}

/// Consume the literal `t` at `pos`, or fail.
pub open spec fn spec_tag(s: Seq<u8>, pos: int, t: Seq<u8>) -> Option<int> {
    if spec_match_at(s, pos, t) {
        Some(pos + t.len())
    } else {
        None
    }
}

/// Position of the first occurrence of `t` at or after `pos`; the consumer
/// is left standing on the occurrence itself.
pub open spec fn spec_take_until(s: Seq<u8>, pos: int, t: Seq<u8>) -> Option<int>
    decreases s.len() - pos,
    when 0 <= pos <= s.len()
{
    if pos + t.len() > s.len() {
        None
    } else if spec_match_at(s, pos, t) {
        Some(pos)
    } else if pos >= s.len() {
        None
    } else {
        spec_take_until(s, pos + 1, t)
    }
}

/// Decimal value of the digit run `s[start .. end]`.
pub open spec fn spec_dec_value(s: Seq<u8>, start: int, end: int) -> int
    decreases end - start,
{
    if start >= end {
        0
    } else {
        spec_dec_value(s, start, end - 1) * 10 + (s[end - 1] - '0' as u8)
    }
}

/// An unsigned decimal number: one or more digits whose value is at most
/// `max`. A run whose value exceeds `max` is a failed parse, not a shorter
/// number.
pub open spec fn spec_parse_uint(s: Seq<u8>, pos: int, max: int) -> Option<(int, int)> {
    let end = spec_run_end(s, pos, digit_pred());
    if end <= pos {
        None
    } else if spec_dec_value(s, pos, end) > max {
        None
    } else {
        Some((end, spec_dec_value(s, pos, end)))
    }
}

pub open spec fn spec_parse_u8_num(s: Seq<u8>, pos: int) -> Option<(int, u8)> {
    match spec_parse_uint(s, pos, 255) {
        None => None,
        Some((p, v)) => Some((p, v as u8)),
    }
}

pub open spec fn spec_parse_u16_num(s: Seq<u8>, pos: int) -> Option<(int, u16)> {
    match spec_parse_uint(s, pos, 65535) {
        None => None,
        Some((p, v)) => Some((p, v as u16)),
    }
}

/// One or more spaces or tabs.
pub open spec fn spec_space1(s: Seq<u8>, pos: int) -> Option<int> {
    let end = spec_run_end(s, pos, space_tab_pred());
    if end <= pos {
        None
    } else {
        Some(end)
    }
}

/// A line break: either a line feed or a carriage return followed by a line
/// feed.
pub open spec fn spec_line_ending(s: Seq<u8>, pos: int) -> Option<int> {
    if 0 <= pos && pos < s.len() && s[pos] == '\n' as u8 {
        Some(pos + 1)
    } else if 0 <= pos && pos + 1 < s.len() && s[pos] == '\r' as u8 && s[pos + 1] == '\n' as u8 {
        Some(pos + 2)
    } else {
        None
    }
}

/// The rest of the current line: everything up to, and not including, the
/// next line break or the end of the input. A lone carriage return that is
/// not followed by a line feed is a malformed line.
pub open spec fn spec_not_line_ending(s: Seq<u8>, pos: int) -> Option<int> {
    let end = spec_run_end(s, pos, line_content_pred());
    if end < s.len() && s[end] == '\r' as u8 && !(end + 1 < s.len() && s[end + 1] == '\n' as u8) {
        None
    } else {
        Some(end)
    }
}

// ---------------------------------------------------------------------------
// Facts about the specification combinators
// ---------------------------------------------------------------------------

pub proof fn lemma_run_end_bounds(s: Seq<u8>, pos: int, p: spec_fn(u8) -> bool)
    requires
        0 <= pos <= s.len(),
    ensures
        pos <= spec_run_end(s, pos, p) <= s.len(),
        forall|i: int| pos <= i < spec_run_end(s, pos, p) ==> p(s[i]),
        spec_run_end(s, pos, p) < s.len() ==> !p(s[spec_run_end(s, pos, p)]),
    decreases s.len() - pos,
{
    if pos < s.len() && p(s[pos]) {
        lemma_run_end_bounds(s, pos + 1, p);
    }
}

/// A run of digit bytes always has a non-negative decimal value.
pub proof fn lemma_dec_value_nonneg(s: Seq<u8>, start: int, end: int)
    requires
        forall|i: int| start <= i < end ==> is_digit_byte(s[i]),
    ensures
        spec_dec_value(s, start, end) >= 0,
    decreases end - start,
{
    if start < end {
        lemma_dec_value_nonneg(s, start, end - 1);
    }
}

// ---------------------------------------------------------------------------
// Executable byte classes
// ---------------------------------------------------------------------------

fn is_digit_b(b: u8) -> (r: bool)
    ensures
        r == is_digit_byte(b),
{
    '0' as u8 <= b && b <= '9' as u8
}

fn is_space_tab_b(b: u8) -> (r: bool)
    ensures
        r == is_space_tab_byte(b),
{
    b == ' ' as u8 || b == '\t' as u8
}

fn is_multispace_b(b: u8) -> (r: bool)
    ensures
        r == is_multispace_byte(b),
{
    b == ' ' as u8 || b == '\t' as u8 || b == '\n' as u8 || b == '\r' as u8
}

fn is_line_break_b(b: u8) -> (r: bool)
    ensures
        r == is_line_break_byte(b),
{
    b == '\n' as u8 || b == '\r' as u8
}

// ---------------------------------------------------------------------------
// Executable combinators
// ---------------------------------------------------------------------------

fn skip_multispace(input: &[u8], pos: usize) -> (r: usize)
    requires
        pos <= input@.len(),
    ensures
        r == spec_run_end(input@, pos as int, multispace_pred()),
        pos <= r <= input@.len(),
{
    let mut i: usize = pos;
    while i < input.len() && is_multispace_b(input[i])
        invariant
            pos <= i <= input@.len(),
            spec_run_end(input@, pos as int, multispace_pred()) == spec_run_end(
                input@,
                i as int,
                multispace_pred(),
            ),
        decreases input@.len() - i,
    {
        i = i + 1;
    }
    i
}

fn space_run_end(input: &[u8], pos: usize) -> (r: usize)
    requires
        pos <= input@.len(),
    ensures
        r == spec_run_end(input@, pos as int, space_tab_pred()),
        pos <= r <= input@.len(),
{
    let mut i: usize = pos;
    while i < input.len() && is_space_tab_b(input[i])
        invariant
            pos <= i <= input@.len(),
            spec_run_end(input@, pos as int, space_tab_pred()) == spec_run_end(
                input@,
                i as int,
                space_tab_pred(),
            ),
        decreases input@.len() - i,
    {
        i = i + 1;
    }
    i
}

fn line_content_end(input: &[u8], pos: usize) -> (r: usize)
    requires
        pos <= input@.len(),
    ensures
        r == spec_run_end(input@, pos as int, line_content_pred()),
        pos <= r <= input@.len(),
{
    let mut i: usize = pos;
    while i < input.len() && !is_line_break_b(input[i])
        invariant
            pos <= i <= input@.len(),
            spec_run_end(input@, pos as int, line_content_pred()) == spec_run_end(
                input@,
                i as int,
                line_content_pred(),
            ),
        decreases input@.len() - i,
    {
        i = i + 1;
    }
    i
}

fn match_at(input: &[u8], pos: usize, t: &[u8]) -> (r: bool)
    requires
        pos <= input@.len(),
    ensures
        r == spec_match_at(input@, pos as int, t@),
{
    let n: usize = input.len();
    let m: usize = t.len();
    if n - pos < m {
        return false;
    }
    let mut i: usize = 0;
    while i < m
        invariant
            0 <= i <= m,
            m == t@.len(),
            n == input@.len(),
            pos + m <= n,
            forall|j: int| 0 <= j < i ==> input@[pos + j] == t@[j],
        decreases t@.len() - i,
    {
        if input[pos + i] != t[i] {
            proof {
                assert(input@.subrange(pos as int, pos + t@.len())[i as int] != t@[i as int]);
            }
            return false;
        }
        i = i + 1;
    }
    proof {
        assert(input@.subrange(pos as int, pos + t@.len()) =~= t@);
    }
    true
}

pub open spec fn opt_pos(r: Option<usize>) -> Option<int> {
    match r {
        None => None,
        Some(p) => Some(p as int),
    }
}

fn take_until(input: &[u8], pos: usize, t: &[u8]) -> (r: Option<usize>)
    requires
        pos <= input@.len(),
    ensures
        opt_pos(r) == spec_take_until(input@, pos as int, t@),
        r matches Some(p) ==> pos <= p && p + t@.len() <= input@.len(),
{
    if t.len() == 0 {
        proof {
            assert(input@.subrange(pos as int, pos as int) =~= t@);
        }
        return Some(pos);
    }
    let mut i: usize = pos;
    while input.len() - i >= t.len()
        invariant
            pos <= i <= input@.len(),
            t@.len() >= 1,
            spec_take_until(input@, pos as int, t@) == spec_take_until(input@, i as int, t@),
        decreases input@.len() - i,
    {
        if match_at(input, i, t) {
            return Some(i);
        }
        i = i + 1;
    }
    None
}

fn tag(input: &[u8], pos: usize, t: &[u8]) -> (r: Option<usize>)
    requires
        pos <= input@.len(),
    ensures
        opt_pos(r) == spec_tag(input@, pos as int, t@),
        r matches Some(p) ==> pos <= p <= input@.len(),
{
    let n: usize = input.len();
    if match_at(input, pos, t) {
        proof {
            assert(pos + t@.len() <= n);
        }
        Some(pos + t.len())
    } else {
        None
    }
}

fn space1(input: &[u8], pos: usize) -> (r: Option<usize>)
    requires
        pos <= input@.len(),
    ensures
        opt_pos(r) == spec_space1(input@, pos as int),
        r matches Some(p) ==> pos < p <= input@.len(),
{
    let end = space_run_end(input, pos);
    if end <= pos {
        None
    } else {
        Some(end)
    }
}

fn line_ending(input: &[u8], pos: usize) -> (r: Option<usize>)
    requires
        pos <= input@.len(),
    ensures
        opt_pos(r) == spec_line_ending(input@, pos as int),
        r matches Some(p) ==> pos < p <= input@.len(),
{
    if pos >= input.len() {
        return None;
    }
    if input[pos] == '\n' as u8 {
        return Some(pos + 1);
    }
    if input[pos] == '\r' as u8 && pos + 1 < input.len() && input[pos + 1] == '\n' as u8 {
        return Some(pos + 2);
    }
    None
}

fn not_line_ending(input: &[u8], pos: usize) -> (r: Option<usize>)
    requires
        pos <= input@.len(),
    ensures
        opt_pos(r) == spec_not_line_ending(input@, pos as int),
        r matches Some(p) ==> pos <= p <= input@.len(),
{
    let end = line_content_end(input, pos);
    if end < input.len() && input[end] == '\r' as u8 && !(end + 1 < input.len() && input[end + 1]
        == '\n' as u8) {
        None
    } else {
        Some(end)
    }
}

fn parse_uint(input: &[u8], pos: usize, max: u32) -> (r: Option<(usize, u32)>)
    requires
        pos <= input@.len(),
        max <= 65535,
    ensures
        (match r {
            None => spec_parse_uint(input@, pos as int, max as int) is None,
            Some((p, v)) => spec_parse_uint(input@, pos as int, max as int) == Some(
                (p as int, v as int),
            ),
        }),
        r matches Some((p, v)) ==> pos < p <= input@.len() && v <= max,
{
    let ghost s = input@;
    let mut i: usize = pos;
    let mut val: u32 = 0;
    proof {
        lemma_run_end_bounds(s, pos as int, digit_pred());
    }
    while i < input.len() && is_digit_b(input[i])
        invariant
            pos <= i <= input@.len(),
            max <= 65535,
            s == input@,
            spec_run_end(s, pos as int, digit_pred()) == spec_run_end(s, i as int, digit_pred()),
            forall|j: int| pos <= j < i ==> is_digit_byte(s[j]),
            val <= 655359,
            spec_dec_value(s, pos as int, i as int) <= max ==> val == spec_dec_value(
                s,
                pos as int,
                i as int,
            ),
            spec_dec_value(s, pos as int, i as int) > max ==> val > max,
        decreases input@.len() - i,
    {
        let d: u32 = (input[i] - '0' as u8) as u32;
        proof {
            lemma_dec_value_nonneg(s, pos as int, i as int);
            assert(spec_dec_value(s, pos as int, i + 1) == spec_dec_value(s, pos as int, i as int)
                * 10 + (s[i as int] - '0' as u8));
        }
        if val <= max {
            val = val * 10 + d;
        }
        i = i + 1;
    }
    proof {
        lemma_dec_value_nonneg(s, pos as int, i as int);
    }
    if i == pos {
        None
    } else if val > max {
        None
    } else {
        Some((i, val))
    }
}

fn parse_u8_num(input: &[u8], pos: usize) -> (r: Option<(usize, u8)>)
    requires
        pos <= input@.len(),
    ensures
        (match r {
            None => spec_parse_u8_num(input@, pos as int) is None,
            Some((p, v)) => spec_parse_u8_num(input@, pos as int) == Some((p as int, v)),
        }),
        r matches Some((p, v)) ==> pos < p <= input@.len(),
{
    match parse_uint(input, pos, 255) {
        None => None,
        Some((p, v)) => Some((p, v as u8)),
    }
}

fn parse_u16_num(input: &[u8], pos: usize) -> (r: Option<(usize, u16)>)
    requires
        pos <= input@.len(),
    ensures
        (match r {
            None => spec_parse_u16_num(input@, pos as int) is None,
            Some((p, v)) => spec_parse_u16_num(input@, pos as int) == Some((p as int, v)),
        }),
        r matches Some((p, v)) ==> pos < p <= input@.len(),
{
    match parse_uint(input, pos, 65535) {
        None => None,
        Some((p, v)) => Some((p, v as u16)),
    }
}

// ---------------------------------------------------------------------------
// Literal tokens of the grammar
// ---------------------------------------------------------------------------

pub open spec fn tag_validator_group_marker() -> Seq<u8> {
    seq!['v' as u8, 'a' as u8, 'l' as u8, 'i' as u8, 'd' as u8, 'a' as u8, 't' as u8, 'o' as u8, 'r' as u8, '-' as u8, 'g' as u8, 'r' as u8, 'o' as u8, 'u' as u8, 'p' as u8]
}

pub open spec fn tag_validator_group() -> Seq<u8> {
    seq!['v' as u8, 'a' as u8, 'l' as u8, 'i' as u8, 'd' as u8, 'a' as u8, 't' as u8, 'o' as u8, 'r' as u8, '-' as u8, 'g' as u8, 'r' as u8, 'o' as u8, 'u' as u8, 'p' as u8, '-' as u8]
}

pub open spec fn tag_cctl_node() -> Seq<u8> {
    seq![':' as u8, 'c' as u8, 'c' as u8, 't' as u8, 'l' as u8, '-' as u8, 'n' as u8, 'o' as u8, 'd' as u8, 'e' as u8, '-' as u8]
}

pub open spec fn tag_sidecar_suffix() -> Seq<u8> {
    seq!['-' as u8, 's' as u8, 'i' as u8, 'd' as u8, 'e' as u8, 'c' as u8, 'a' as u8, 'r' as u8]
}

pub open spec fn tag_running() -> Seq<u8> {
    seq!['R' as u8, 'U' as u8, 'N' as u8, 'N' as u8, 'I' as u8, 'N' as u8, 'G' as u8]
}

pub open spec fn tag_stopped() -> Seq<u8> {
    seq!['S' as u8, 'T' as u8, 'O' as u8, 'P' as u8, 'P' as u8, 'E' as u8, 'D' as u8]
}

pub open spec fn tag_node_header() -> Seq<u8> {
    seq!['N' as u8, 'O' as u8, 'D' as u8, 'E' as u8, '-' as u8]
}

pub open spec fn tag_sidecar_header() -> Seq<u8> {
    seq!['S' as u8, 'I' as u8, 'D' as u8, 'E' as u8, 'C' as u8, 'A' as u8, 'R' as u8, '-' as u8]
}

pub open spec fn tag_arrow() -> Seq<u8> {
    seq!['-' as u8, '>' as u8, ' ' as u8]
}

pub open spec fn tag_protocol() -> Seq<u8> {
    seq!['P' as u8, 'R' as u8, 'O' as u8, 'T' as u8, 'O' as u8, 'C' as u8, 'O' as u8, 'L' as u8]
}

pub open spec fn tag_binary() -> Seq<u8> {
    seq!['B' as u8, 'I' as u8, 'N' as u8, 'A' as u8, 'R' as u8, 'Y' as u8]
}

pub open spec fn tag_rest() -> Seq<u8> {
    seq!['R' as u8, 'E' as u8, 'S' as u8, 'T' as u8]
}

pub open spec fn tag_sse() -> Seq<u8> {
    seq!['S' as u8, 'S' as u8, 'E' as u8]
}

pub open spec fn tag_node_client() -> Seq<u8> {
    seq!['N' as u8, 'O' as u8, 'D' as u8, 'E' as u8, '-' as u8, 'C' as u8, 'L' as u8, 'I' as u8, 'E' as u8, 'N' as u8, 'T' as u8]
}

pub open spec fn tag_main_rpc() -> Seq<u8> {
    seq!['M' as u8, 'A' as u8, 'I' as u8, 'N' as u8, '-' as u8, 'R' as u8, 'P' as u8, 'C' as u8]
}

pub open spec fn tag_spec_exec() -> Seq<u8> {
    seq!['S' as u8, 'P' as u8, 'E' as u8, 'C' as u8, '-' as u8, 'E' as u8, 'X' as u8, 'E' as u8, 'C' as u8]
}

fn tag_validator_group_marker_bytes() -> (v: Vec<u8>)
    ensures
        v@ == tag_validator_group_marker(),
{
    let mut v: Vec<u8> = Vec::new();
    v.push('v' as u8);
    v.push('a' as u8);
    v.push('l' as u8);
    v.push('i' as u8);
    v.push('d' as u8);
    v.push('a' as u8);
    v.push('t' as u8);
    v.push('o' as u8);
    v.push('r' as u8);
    v.push('-' as u8);
    v.push('g' as u8);
    v.push('r' as u8);
    v.push('o' as u8);
    v.push('u' as u8);
    v.push('p' as u8);
    proof { assert(v@ =~= tag_validator_group_marker()); }
    v
}

fn tag_validator_group_bytes() -> (v: Vec<u8>)
    ensures
        v@ == tag_validator_group(),
{
    let mut v: Vec<u8> = Vec::new();
    v.push('v' as u8);
    v.push('a' as u8);
    v.push('l' as u8);
    v.push('i' as u8);
    v.push('d' as u8);
    v.push('a' as u8);
    v.push('t' as u8);
    v.push('o' as u8);
    v.push('r' as u8);
    v.push('-' as u8);
    v.push('g' as u8);
    v.push('r' as u8);
    v.push('o' as u8);
    v.push('u' as u8);
    v.push('p' as u8);
    v.push('-' as u8);
    proof { assert(v@ =~= tag_validator_group()); }
    v
}

fn tag_cctl_node_bytes() -> (v: Vec<u8>)
    ensures
        v@ == tag_cctl_node(),
{
    let mut v: Vec<u8> = Vec::new();
    v.push(':' as u8);
    v.push('c' as u8);
    v.push('c' as u8);
    v.push('t' as u8);
    v.push('l' as u8);
    v.push('-' as u8);
    v.push('n' as u8);
    v.push('o' as u8);
    v.push('d' as u8);
    v.push('e' as u8);
    v.push('-' as u8);
    proof { assert(v@ =~= tag_cctl_node()); }
    v
}

fn tag_sidecar_suffix_bytes() -> (v: Vec<u8>)
    ensures
        v@ == tag_sidecar_suffix(),
{
    let mut v: Vec<u8> = Vec::new();
    v.push('-' as u8);
    v.push('s' as u8);
    v.push('i' as u8);
    v.push('d' as u8);
    v.push('e' as u8);
    v.push('c' as u8);
    v.push('a' as u8);
    v.push('r' as u8);
    proof { assert(v@ =~= tag_sidecar_suffix()); }
    v
}

fn tag_running_bytes() -> (v: Vec<u8>)
    ensures
        v@ == tag_running(),
{
    let mut v: Vec<u8> = Vec::new();
    v.push('R' as u8);
    v.push('U' as u8);
    v.push('N' as u8);
    v.push('N' as u8);
    v.push('I' as u8);
    v.push('N' as u8);
    v.push('G' as u8);
    proof { assert(v@ =~= tag_running()); }
    v
}

fn tag_stopped_bytes() -> (v: Vec<u8>)
    ensures
        v@ == tag_stopped(),
{
    let mut v: Vec<u8> = Vec::new();
    v.push('S' as u8);
    v.push('T' as u8);
    v.push('O' as u8);
    v.push('P' as u8);
    v.push('P' as u8);
    v.push('E' as u8);
    v.push('D' as u8);
    proof { assert(v@ =~= tag_stopped()); }
    v
}

fn tag_node_header_bytes() -> (v: Vec<u8>)
    ensures
        v@ == tag_node_header(),
{
    let mut v: Vec<u8> = Vec::new();
    v.push('N' as u8);
    v.push('O' as u8);
    v.push('D' as u8);
    v.push('E' as u8);
    v.push('-' as u8);
    proof { assert(v@ =~= tag_node_header()); }
    v
}

fn tag_sidecar_header_bytes() -> (v: Vec<u8>)
    ensures
        v@ == tag_sidecar_header(),
{
    let mut v: Vec<u8> = Vec::new();
    v.push('S' as u8);
    v.push('I' as u8);
    v.push('D' as u8);
    v.push('E' as u8);
    v.push('C' as u8);
    v.push('A' as u8);
    v.push('R' as u8);
    v.push('-' as u8);
    proof { assert(v@ =~= tag_sidecar_header()); }
    v
}

fn tag_arrow_bytes() -> (v: Vec<u8>)
    ensures
        v@ == tag_arrow(),
{
    let mut v: Vec<u8> = Vec::new();
    v.push('-' as u8);
    v.push('>' as u8);
    v.push(' ' as u8);
    proof { assert(v@ =~= tag_arrow()); }
    v
}

fn tag_protocol_bytes() -> (v: Vec<u8>)
    ensures
        v@ == tag_protocol(),
{
    let mut v: Vec<u8> = Vec::new();
    v.push('P' as u8);
    v.push('R' as u8);
    v.push('O' as u8);
    v.push('T' as u8);
    v.push('O' as u8);
    v.push('C' as u8);
    v.push('O' as u8);
    v.push('L' as u8);
    proof { assert(v@ =~= tag_protocol()); }
    v
}

fn tag_binary_bytes() -> (v: Vec<u8>)
    ensures
        v@ == tag_binary(),
{
    let mut v: Vec<u8> = Vec::new();
    v.push('B' as u8);
    v.push('I' as u8);
    v.push('N' as u8);
    v.push('A' as u8);
    v.push('R' as u8);
    v.push('Y' as u8);
    proof { assert(v@ =~= tag_binary()); }
    v
}

fn tag_rest_bytes() -> (v: Vec<u8>)
    ensures
        v@ == tag_rest(),
{
    let mut v: Vec<u8> = Vec::new();
    v.push('R' as u8);
    v.push('E' as u8);
    v.push('S' as u8);
    v.push('T' as u8);
    proof { assert(v@ =~= tag_rest()); }
    v
}

fn tag_sse_bytes() -> (v: Vec<u8>)
    ensures
        v@ == tag_sse(),
{
    let mut v: Vec<u8> = Vec::new();
    v.push('S' as u8);
    v.push('S' as u8);
    v.push('E' as u8);
    proof { assert(v@ =~= tag_sse()); }
    v
}

fn tag_node_client_bytes() -> (v: Vec<u8>)
    ensures
        v@ == tag_node_client(),
{
    let mut v: Vec<u8> = Vec::new();
    v.push('N' as u8);
    v.push('O' as u8);
    v.push('D' as u8);
    v.push('E' as u8);
    v.push('-' as u8);
    v.push('C' as u8);
    v.push('L' as u8);
    v.push('I' as u8);
    v.push('E' as u8);
    v.push('N' as u8);
    v.push('T' as u8);
    proof { assert(v@ =~= tag_node_client()); }
    v
}

fn tag_main_rpc_bytes() -> (v: Vec<u8>)
    ensures
        v@ == tag_main_rpc(),
{
    let mut v: Vec<u8> = Vec::new();
    v.push('M' as u8);
    v.push('A' as u8);
    v.push('I' as u8);
    v.push('N' as u8);
    v.push('-' as u8);
    v.push('R' as u8);
    v.push('P' as u8);
    v.push('C' as u8);
    proof { assert(v@ =~= tag_main_rpc()); }
    v
}

fn tag_spec_exec_bytes() -> (v: Vec<u8>)
    ensures
        v@ == tag_spec_exec(),
{
    let mut v: Vec<u8> = Vec::new();
    v.push('S' as u8);
    v.push('P' as u8);
    v.push('E' as u8);
    v.push('C' as u8);
    v.push('-' as u8);
    v.push('E' as u8);
    v.push('X' as u8);
    v.push('E' as u8);
    v.push('C' as u8);
    proof { assert(v@ =~= tag_spec_exec()); }
    v
}



// ---------------------------------------------------------------------------
// Topology lines
// ---------------------------------------------------------------------------

/// A run-state token: `RUNNING` or `STOPPED`.
pub open spec fn spec_parse_node_state(s: Seq<u8>, pos: int) -> Option<(int, NodeState)> {
    if spec_match_at(s, pos, tag_running()) {
        Some((pos + tag_running().len(), NodeState::Running))
    } else if spec_match_at(s, pos, tag_stopped()) {
        Some((pos + tag_stopped().len(), NodeState::Stopped))
    } else {
        None
    }
}

/// A node line: optional leading whitespace, `validator-group-<g>:cctl-node-<n>`,
/// at least one space, a run state, then anything up to the end of the line.
pub open spec fn spec_parse_node_line(s: Seq<u8>, pos: int) -> Option<(int, RawNodeType)> {
    let p0 = spec_run_end(s, pos, multispace_pred());
    match spec_tag(s, p0, tag_validator_group()) {
        None => None,
        Some(p1) => match spec_parse_u8_num(s, p1) {
            None => None,
            Some((p2, group)) => match spec_tag(s, p2, tag_cctl_node()) {
                None => None,
                Some(p3) => match spec_parse_u8_num(s, p3) {
                    None => None,
                    Some((p4, node)) => match spec_space1(s, p4) {
                        None => None,
                        Some(p5) => match spec_parse_node_state(s, p5) {
                            None => None,
                            Some((p6, state)) => match spec_not_line_ending(s, p6) {
                                None => None,
                                Some(p7) => Some((p7, RawNodeType::CasperNode(group, node, state))),
                            },
                        },
                    },
                },
            },
        },
    }
}

/// A sidecar line: the node-line pattern with the literal `-sidecar`
/// directly after the node id, before the run state.
pub open spec fn spec_parse_sidecar_line(s: Seq<u8>, pos: int) -> Option<(int, RawNodeType)> {
    let p0 = spec_run_end(s, pos, multispace_pred());
    match spec_tag(s, p0, tag_validator_group()) {
        None => None,
        Some(p1) => match spec_parse_u8_num(s, p1) {
            None => None,
            Some((p2, group)) => match spec_tag(s, p2, tag_cctl_node()) {
                None => None,
                Some(p3) => match spec_parse_u8_num(s, p3) {
                    None => None,
                    Some((p4, node)) => match spec_tag(s, p4, tag_sidecar_suffix()) {
                        None => None,
                        Some(p5) => match spec_space1(s, p5) {
                            None => None,
                            Some(p6) => match spec_parse_node_state(s, p6) {
                                None => None,
                                Some((p7, state)) => match spec_not_line_ending(s, p7) {
                                    None => None,
                                    Some(p8) => Some(
                                        (p8, RawNodeType::CasperSidecar(group, node, state)),
                                    ),
                                },
                            },
                        },
                    },
                },
            },
        },
    }
}

/// One topology line of either kind; the sidecar pattern is tried first,
/// since it is a strict extension of the node pattern.
pub open spec fn spec_parse_net_start_line(s: Seq<u8>, pos: int) -> Option<(int, RawNodeType)> {
    match spec_parse_sidecar_line(s, pos) {
        Some(r) => Some(r),
        None => spec_parse_node_line(s, pos),
    }
}

pub fn parse_node_state(input: &[u8], pos: usize) -> (r: Option<(usize, NodeState)>)
    requires
        pos <= input@.len(),
    ensures
        (match r {
            None => spec_parse_node_state(input@, pos as int) is None,
            Some((p, v)) => spec_parse_node_state(input@, pos as int) == Some((p as int, v)),
        }),
        r matches Some((p, _)) ==> pos < p <= input@.len(),
{
    let running = tag_running_bytes();
    match tag(input, pos, running.as_slice()) {
        Some(p) => Some((p, NodeState::Running)),
        None => {
            let stopped = tag_stopped_bytes();
            match tag(input, pos, stopped.as_slice()) {
                Some(p) => Some((p, NodeState::Stopped)),
                None => None,
            }
        },
    }
}

pub fn parse_node_line(input: &[u8], pos: usize) -> (r: Option<(usize, RawNodeType)>)
    requires
        pos <= input@.len(),
    ensures
        (match r {
            None => spec_parse_node_line(input@, pos as int) is None,
            Some((p, v)) => spec_parse_node_line(input@, pos as int) == Some((p as int, v)),
        }),
        r matches Some((p, _)) ==> pos < p <= input@.len(),
{
    let p0 = skip_multispace(input, pos);
    let vg = tag_validator_group_bytes();
    let p1 = match tag(input, p0, vg.as_slice()) {
        None => {
            return None;
        },
        Some(p) => p,
    };
    let (p2, group) = match parse_u8_num(input, p1) {
        None => {
            return None;
        },
        Some(x) => x,
    };
    let cn = tag_cctl_node_bytes();
    let p3 = match tag(input, p2, cn.as_slice()) {
        None => {
            return None;
        },
        Some(p) => p,
    };
    let (p4, node) = match parse_u8_num(input, p3) {
        None => {
            return None;
        },
        Some(x) => x,
    };
    let p5 = match space1(input, p4) {
        None => {
            return None;
        },
        Some(p) => p,
    };
    let (p6, state) = match parse_node_state(input, p5) {
        None => {
            return None;
        },
        Some(x) => x,
    };
    let p7 = match not_line_ending(input, p6) {
        None => {
            return None;
        },
        Some(p) => p,
    };
    Some((p7, RawNodeType::CasperNode(group, node, state)))
}

pub fn parse_sidecar_line(input: &[u8], pos: usize) -> (r: Option<(usize, RawNodeType)>)
    requires
        pos <= input@.len(),
    ensures
        (match r {
            None => spec_parse_sidecar_line(input@, pos as int) is None,
            Some((p, v)) => spec_parse_sidecar_line(input@, pos as int) == Some((p as int, v)),
        }),
        r matches Some((p, _)) ==> pos < p <= input@.len(),
{
    let p0 = skip_multispace(input, pos);
    let vg = tag_validator_group_bytes();
    let p1 = match tag(input, p0, vg.as_slice()) {
        None => {
            return None;
        },
        Some(p) => p,
    };
    let (p2, group) = match parse_u8_num(input, p1) {
        None => {
            return None;
        },
        Some(x) => x,
    };
    let cn = tag_cctl_node_bytes();
    let p3 = match tag(input, p2, cn.as_slice()) {
        None => {
            return None;
        },
        Some(p) => p,
    };
    let (p4, node) = match parse_u8_num(input, p3) {
        None => {
            return None;
        },
        Some(x) => x,
    };
    let sc = tag_sidecar_suffix_bytes();
    let p5 = match tag(input, p4, sc.as_slice()) {
        None => {
            return None;
        },
        Some(p) => p,
    };
    let p6 = match space1(input, p5) {
        None => {
            return None;
        },
        Some(p) => p,
    };
    let (p7, state) = match parse_node_state(input, p6) {
        None => {
            return None;
        },
        Some(x) => x,
    };
    let p8 = match not_line_ending(input, p7) {
        None => {
            return None;
        },
        Some(p) => p,
    };
    Some((p8, RawNodeType::CasperSidecar(group, node, state)))
}

pub fn parse_cctl_infra_net_start_line(input: &[u8], pos: usize) -> (r: Option<
    (usize, RawNodeType),
>)
    requires
        pos <= input@.len(),
    ensures
        (match r {
            None => spec_parse_net_start_line(input@, pos as int) is None,
            Some((p, v)) => spec_parse_net_start_line(input@, pos as int) == Some((p as int, v)),
        }),
        r matches Some((p, _)) ==> pos < p <= input@.len(),
{
    match parse_sidecar_line(input, pos) {
        Some(x) => Some(x),
        None => parse_node_line(input, pos),
    }
}


// ---------------------------------------------------------------------------
// Port report sections
// ---------------------------------------------------------------------------

/// The node header of a port section: scan forward to `NODE-`, then read the
/// node id directly after it.
pub open spec fn spec_parse_node_view_ports_node_id(s: Seq<u8>, pos: int) -> Option<(int, u8)> {
    match spec_take_until(s, pos, tag_node_header()) {
        None => None,
        Some(q0) => match spec_tag(s, q0, tag_node_header()) {
            None => None,
            Some(q1) => spec_parse_u8_num(s, q1),
        },
    }
}

/// The sidecar header of a port section, keyed by `SIDECAR-`.
pub open spec fn spec_parse_sidecar_view_ports_node_id(s: Seq<u8>, pos: int) -> Option<(int, u8)> {
    match spec_take_until(s, pos, tag_sidecar_header()) {
        None => None,
        Some(q0) => match spec_tag(s, q0, tag_sidecar_header()) {
            None => None,
            Some(q1) => spec_parse_u8_num(s, q1),
        },
    }
}

/// One port value line: scan forward to the token naming the port, then to
/// the arrow marker, and read the 16-bit port number after it.
pub open spec fn spec_parse_ports_port(s: Seq<u8>, pos: int, token: Seq<u8>) -> Option<(int, u16)> {
    match spec_take_until(s, pos, token) {
        None => None,
        Some(q0) => match spec_take_until(s, q0, tag_arrow()) {
            None => None,
            Some(q1) => match spec_tag(s, q1, tag_arrow()) {
                None => None,
                Some(q2) => spec_parse_u16_num(s, q2),
            },
        },
    }
}

/// A node port section: the `NODE-<id>` header, then the four port lines in
/// fixed order (protocol, binary, rest, sse), then the rest of the last line.
pub open spec fn spec_parse_node_view_port_section(s: Seq<u8>, pos: int) -> Option<
    (int, (u8, crate::CasperNodePorts)),
> {
    match spec_parse_node_view_ports_node_id(s, pos) {
        None => None,
        Some((p1, id)) => match spec_line_ending(s, p1) {
            None => None,
            Some(p2) => match spec_parse_ports_port(s, p2, tag_protocol()) {
                None => None,
                Some((p3, protocol_port)) => match spec_line_ending(s, p3) {
                    None => None,
                    Some(p4) => match spec_parse_ports_port(s, p4, tag_binary()) {
                        None => None,
                        Some((p5, binary_port)) => match spec_line_ending(s, p5) {
                            None => None,
                            Some(p6) => match spec_parse_ports_port(s, p6, tag_rest()) {
                                None => None,
                                Some((p7, rest_port)) => match spec_line_ending(s, p7) {
                                    None => None,
                                    Some(p8) => match spec_parse_ports_port(s, p8, tag_sse()) {
                                        None => None,
                                        Some((p9, sse_port)) => match spec_not_line_ending(s, p9) {
                                            None => None,
                                            Some(p10) => Some(
                                                (
                                                    p10,
                                                    (
                                                        id,
                                                        crate::CasperNodePorts {
                                                            protocol_port,
                                                            binary_port,
                                                            rest_port,
                                                            sse_port,
                                                        },
                                                    ),
                                                ),
                                            ),
                                        },
                                    },
                                },
                            },
                        },
                    },
                },
            },
        },
    }
}

/// A sidecar port section: the `SIDECAR-<id>` header, then the three port
/// lines in fixed order (node-client, main RPC, speculative execution).
pub open spec fn spec_parse_sidecar_view_port_section(s: Seq<u8>, pos: int) -> Option<
    (int, (u8, crate::CasperSidecarPorts)),
> {
    match spec_parse_sidecar_view_ports_node_id(s, pos) {
        None => None,
        Some((p1, id)) => match spec_line_ending(s, p1) {
            None => None,
            Some(p2) => match spec_parse_ports_port(s, p2, tag_node_client()) {
                None => None,
                Some((p3, node_client_port)) => match spec_line_ending(s, p3) {
                    None => None,
                    Some(p4) => match spec_parse_ports_port(s, p4, tag_main_rpc()) {
                        None => None,
                        Some((p5, rpc_port)) => match spec_line_ending(s, p5) {
                            None => None,
                            Some(p6) => match spec_parse_ports_port(s, p6, tag_spec_exec()) {
                                None => None,
                                Some((p7, speculative_exec_port)) => match spec_not_line_ending(
                                    s,
                                    p7,
                                ) {
                                    None => None,
                                    Some(p8) => Some(
                                        (
                                            p8,
                                            (
                                                id,
                                                crate::CasperSidecarPorts {
                                                    node_client_port,
                                                    rpc_port,
                                                    speculative_exec_port,
                                                },
                                            ),
                                        ),
                                    ),
                                },
                            },
                        },
                    },
                },
            },
        },
    }
}

pub fn parse_cctl_infra_node_view_ports_node_id(input: &[u8], pos: usize) -> (r: Option<
    (usize, u8),
>)
    requires
        pos <= input@.len(),
    ensures
        (match r {
            None => spec_parse_node_view_ports_node_id(input@, pos as int) is None,
            Some((p, v)) => spec_parse_node_view_ports_node_id(input@, pos as int) == Some(
                (p as int, v),
            ),
        }),
        r matches Some((p, _)) ==> pos < p <= input@.len(),
{
    let hdr = tag_node_header_bytes();
    let q0 = match take_until(input, pos, hdr.as_slice()) {
        None => {
            return None;
        },
        Some(p) => p,
    };
    let q1 = match tag(input, q0, hdr.as_slice()) {
        None => {
            return None;
        },
        Some(p) => p,
    };
    parse_u8_num(input, q1)
}

pub fn parse_cctl_infra_sidecar_view_ports_node_id(input: &[u8], pos: usize) -> (r: Option<
    (usize, u8),
>)
    requires
        pos <= input@.len(),
    ensures
        (match r {
            None => spec_parse_sidecar_view_ports_node_id(input@, pos as int) is None,
            Some((p, v)) => spec_parse_sidecar_view_ports_node_id(input@, pos as int) == Some(
                (p as int, v),
            ),
        }),
        r matches Some((p, _)) ==> pos < p <= input@.len(),
{
    let hdr = tag_sidecar_header_bytes();
    let q0 = match take_until(input, pos, hdr.as_slice()) {
        None => {
            return None;
        },
        Some(p) => p,
    };
    let q1 = match tag(input, q0, hdr.as_slice()) {
        None => {
            return None;
        },
        Some(p) => p,
    };
    parse_u8_num(input, q1)
}

pub fn parse_cctl_infra_node_view_ports_port(port_type: &[u8], input: &[u8], pos: usize) -> (r:
    Option<(usize, u16)>)
    requires
        pos <= input@.len(),
    ensures
        (match r {
            None => spec_parse_ports_port(input@, pos as int, port_type@) is None,
            Some((p, v)) => spec_parse_ports_port(input@, pos as int, port_type@) == Some(
                (p as int, v),
            ),
        }),
        r matches Some((p, _)) ==> pos < p <= input@.len(),
{
    let q0 = match take_until(input, pos, port_type) {
        None => {
            return None;
        },
        Some(p) => p,
    };
    let arrow = tag_arrow_bytes();
    let q1 = match take_until(input, q0, arrow.as_slice()) {
        None => {
            return None;
        },
        Some(p) => p,
    };
    let q2 = match tag(input, q1, arrow.as_slice()) {
        None => {
            return None;
        },
        Some(p) => p,
    };
    parse_u16_num(input, q2)
}

pub fn parse_cctl_infra_node_view_port_section(input: &[u8], pos: usize) -> (r: Option<
    (usize, (u8, crate::CasperNodePorts)),
>)
    requires
        pos <= input@.len(),
    ensures
        (match r {
            None => spec_parse_node_view_port_section(input@, pos as int) is None,
            Some((p, v)) => spec_parse_node_view_port_section(input@, pos as int) == Some(
                (p as int, v),
            ),
        }),
        r matches Some((p, _)) ==> pos < p <= input@.len(),
{
    let (p1, id) = match parse_cctl_infra_node_view_ports_node_id(input, pos) {
        None => {
            return None;
        },
        Some(x) => x,
    };
    let p2 = match line_ending(input, p1) {
        None => {
            return None;
        },
        Some(p) => p,
    };
    let protocol = tag_protocol_bytes();
    let (p3, protocol_port) = match parse_cctl_infra_node_view_ports_port(
        protocol.as_slice(),
        input,
        p2,
    ) {
        None => {
            return None;
        },
        Some(x) => x,
    };
    let p4 = match line_ending(input, p3) {
        None => {
            return None;
        },
        Some(p) => p,
    };
    let binary = tag_binary_bytes();
    let (p5, binary_port) = match parse_cctl_infra_node_view_ports_port(
        binary.as_slice(),
        input,
        p4,
    ) {
        None => {
            return None;
        },
        Some(x) => x,
    };
    let p6 = match line_ending(input, p5) {
        None => {
            return None;
        },
        Some(p) => p,
    };
    let rest = tag_rest_bytes();
    let (p7, rest_port) = match parse_cctl_infra_node_view_ports_port(rest.as_slice(), input, p6) {
        None => {
            return None;
        },
        Some(x) => x,
    };
    let p8 = match line_ending(input, p7) {
        None => {
            return None;
        },
        Some(p) => p,
    };
    let sse = tag_sse_bytes();
    let (p9, sse_port) = match parse_cctl_infra_node_view_ports_port(sse.as_slice(), input, p8) {
        None => {
            return None;
        },
        Some(x) => x,
    };
    let p10 = match not_line_ending(input, p9) {
        None => {
            return None;
        },
        Some(p) => p,
    };
    Some(
        (
            p10,
            (
                id,
                crate::CasperNodePorts { protocol_port, binary_port, rest_port, sse_port },
            ),
        ),
    )
}

pub fn parse_cctl_infra_sidecar_view_port_section(input: &[u8], pos: usize) -> (r: Option<
    (usize, (u8, crate::CasperSidecarPorts)),
>)
    requires
        pos <= input@.len(),
    ensures
        (match r {
            None => spec_parse_sidecar_view_port_section(input@, pos as int) is None,
            Some((p, v)) => spec_parse_sidecar_view_port_section(input@, pos as int) == Some(
                (p as int, v),
            ),
        }),
        r matches Some((p, _)) ==> pos < p <= input@.len(),
{
    let (p1, id) = match parse_cctl_infra_sidecar_view_ports_node_id(input, pos) {
        None => {
            return None;
        },
        Some(x) => x,
    };
    let p2 = match line_ending(input, p1) {
        None => {
            return None;
        },
        Some(p) => p,
    };
    let node_client = tag_node_client_bytes();
    let (p3, node_client_port) = match parse_cctl_infra_node_view_ports_port(
        node_client.as_slice(),
        input,
        p2,
    ) {
        None => {
            return None;
        },
        Some(x) => x,
    };
    let p4 = match line_ending(input, p3) {
        None => {
            return None;
        },
        Some(p) => p,
    };
    let main_rpc = tag_main_rpc_bytes();
    let (p5, rpc_port) = match parse_cctl_infra_node_view_ports_port(
        main_rpc.as_slice(),
        input,
        p4,
    ) {
        None => {
            return None;
        },
        Some(x) => x,
    };
    let p6 = match line_ending(input, p5) {
        None => {
            return None;
        },
        Some(p) => p,
    };
    let spec_exec = tag_spec_exec_bytes();
    let (p7, speculative_exec_port) = match parse_cctl_infra_node_view_ports_port(
        spec_exec.as_slice(),
        input,
        p6,
    ) {
        None => {
            return None;
        },
        Some(x) => x,
    };
    let p8 = match not_line_ending(input, p7) {
        None => {
            return None;
        },
        Some(p) => p,
    };
    Some(
        (
            p8,
            (
                id,
                crate::CasperSidecarPorts { node_client_port, rpc_port, speculative_exec_port },
            ),
        ),
    )
}


// ---------------------------------------------------------------------------
// Greedy repetition: one record per line, separated by line feeds, stopping
// at the first line that fails to parse
// ---------------------------------------------------------------------------

/// Continuation of a record list after one record has ended at `pos`: when a
/// line feed and a further record follow, the list goes on; otherwise it ends
/// at `pos`, leaving the line feed unconsumed.
pub open spec fn spec_net_start_list_rest(s: Seq<u8>, pos: int) -> (int, Seq<RawNodeType>)
    decreases s.len() - pos,
    when 0 <= pos <= s.len()
{
    if pos < s.len() && s[pos] == '\n' as u8 {
        match spec_parse_net_start_line(s, pos + 1) {
            Some((p2, v2)) => if pos < p2 && p2 <= s.len() {
                let r = spec_net_start_list_rest(s, p2);
                (r.0, seq![v2] + r.1)
            } else {
                (pos, Seq::empty())
            },
            None => (pos, Seq::empty()),
        }
    } else {
        (pos, Seq::empty())
    }
}

/// A possibly empty run of records separated by line feeds, parsed greedily.
pub open spec fn spec_net_start_list(s: Seq<u8>, pos: int) -> (int, Seq<RawNodeType>) {
    match spec_parse_net_start_line(s, pos) {
        None => (pos, Seq::empty()),
        Some((p1, v1)) => {
            let r = spec_net_start_list_rest(s, p1);
            (r.0, seq![v1] + r.1)
        },
    }
}

 fn parse_net_start_list(input: &[u8], pos: usize) -> (r: (usize, Vec<RawNodeType>))
    requires
        pos <= input@.len(),
    ensures
        r.0 as int == spec_net_start_list(input@, pos as int).0,
        r.1@ == spec_net_start_list(input@, pos as int).1,
        pos <= r.0 <= input@.len(),
{
    let mut items: Vec<RawNodeType> = Vec::new();
    let mut cur: usize;
    match parse_cctl_infra_net_start_line(input, pos) {
        None => {
            proof {
                assert(items@ + Seq::<RawNodeType>::empty() =~= items@);
            }
            return (pos, items);
        },
        Some((p1, v1)) => {
            items.push(v1);
            cur = p1;
            proof {
                assert(items@ =~= seq![v1]);
            }
        },
    }
    loop
        invariant
            pos <= cur <= input@.len(),
            spec_net_start_list(input@, pos as int).0 == spec_net_start_list_rest(input@, cur as int).0,
            spec_net_start_list(input@, pos as int).1 == items@ + spec_net_start_list_rest(input@, cur as int).1,
        decreases input@.len() - cur,
    {
        if cur < input.len() && input[cur] == '\n' as u8 {
            match parse_cctl_infra_net_start_line(input, cur + 1) {
                Some((p2, v2)) => {
                    proof {
                        let rst = spec_net_start_list_rest(input@, p2 as int);
                        assert(spec_net_start_list_rest(input@, cur as int).1 == seq![v2] + rst.1);
                        assert((items@ + (seq![v2] + rst.1)) =~= ((items@ + seq![v2]) + rst.1));
                    }
                    items.push(v2);
                    cur = p2;
                },
                None => {
                    proof {
                        assert(items@ + Seq::<RawNodeType>::empty() =~= items@);
                    }
                    return (cur, items);
                },
            }
        } else {
            proof {
                assert(items@ + Seq::<RawNodeType>::empty() =~= items@);
            }
            return (cur, items);
        }
    }
}

/// Continuation of a record list after one record has ended at `pos`: when a
/// line feed and a further record follow, the list goes on; otherwise it ends
/// at `pos`, leaving the line feed unconsumed.
pub open spec fn spec_node_port_list_rest(s: Seq<u8>, pos: int) -> (int, Seq<(u8, crate::CasperNodePorts)>)
    decreases s.len() - pos,
    when 0 <= pos <= s.len()
{
    if pos < s.len() && s[pos] == '\n' as u8 {
        match spec_parse_node_view_port_section(s, pos + 1) {
            Some((p2, v2)) => if pos < p2 && p2 <= s.len() {
                let r = spec_node_port_list_rest(s, p2);
                (r.0, seq![v2] + r.1)
            } else {
                (pos, Seq::empty())
            },
            None => (pos, Seq::empty()),
        }
    } else {
        (pos, Seq::empty())
    }
}

/// A possibly empty run of records separated by line feeds, parsed greedily.
pub open spec fn spec_node_port_list(s: Seq<u8>, pos: int) -> (int, Seq<(u8, crate::CasperNodePorts)>) {
    match spec_parse_node_view_port_section(s, pos) {
        None => (pos, Seq::empty()),
        Some((p1, v1)) => {
            let r = spec_node_port_list_rest(s, p1);
            (r.0, seq![v1] + r.1)
        },
    }
}

pub fn parse_cctl_infra_node_view_port_lines(input: &[u8], pos: usize) -> (r: (usize, Vec<(u8, crate::CasperNodePorts)>))
    requires
        pos <= input@.len(),
    ensures
        r.0 as int == spec_node_port_list(input@, pos as int).0,
        r.1@ == spec_node_port_list(input@, pos as int).1,
        pos <= r.0 <= input@.len(),
{
    let mut items: Vec<(u8, crate::CasperNodePorts)> = Vec::new();
    let mut cur: usize;
    match parse_cctl_infra_node_view_port_section(input, pos) {
        None => {
            proof {
                assert(items@ + Seq::<(u8, crate::CasperNodePorts)>::empty() =~= items@);
            }
            return (pos, items);
        },
        Some((p1, v1)) => {
            items.push(v1);
            cur = p1;
            proof {
                assert(items@ =~= seq![v1]);
            }
        },
    }
    loop
        invariant
            pos <= cur <= input@.len(),
            spec_node_port_list(input@, pos as int).0 == spec_node_port_list_rest(input@, cur as int).0,
            spec_node_port_list(input@, pos as int).1 == items@ + spec_node_port_list_rest(input@, cur as int).1,
        decreases input@.len() - cur,
    {
        if cur < input.len() && input[cur] == '\n' as u8 {
            match parse_cctl_infra_node_view_port_section(input, cur + 1) {
                Some((p2, v2)) => {
                    proof {
                        let rst = spec_node_port_list_rest(input@, p2 as int);
                        assert(spec_node_port_list_rest(input@, cur as int).1 == seq![v2] + rst.1);
                        assert((items@ + (seq![v2] + rst.1)) =~= ((items@ + seq![v2]) + rst.1));
                    }
                    items.push(v2);
                    cur = p2;
                },
                None => {
                    proof {
                        assert(items@ + Seq::<(u8, crate::CasperNodePorts)>::empty() =~= items@);
                    }
                    return (cur, items);
                },
            }
        } else {
            proof {
                assert(items@ + Seq::<(u8, crate::CasperNodePorts)>::empty() =~= items@);
            }
            return (cur, items);
        }
    }
}

/// Continuation of a record list after one record has ended at `pos`: when a
/// line feed and a further record follow, the list goes on; otherwise it ends
/// at `pos`, leaving the line feed unconsumed.
pub open spec fn spec_sidecar_port_list_rest(s: Seq<u8>, pos: int) -> (int, Seq<(u8, crate::CasperSidecarPorts)>)
    decreases s.len() - pos,
    when 0 <= pos <= s.len()
{
    if pos < s.len() && s[pos] == '\n' as u8 {
        match spec_parse_sidecar_view_port_section(s, pos + 1) {
            Some((p2, v2)) => if pos < p2 && p2 <= s.len() {
                let r = spec_sidecar_port_list_rest(s, p2);
                (r.0, seq![v2] + r.1)
            } else {
                (pos, Seq::empty())
            },
            None => (pos, Seq::empty()),
        }
    } else {
        (pos, Seq::empty())
    }
}

/// A possibly empty run of records separated by line feeds, parsed greedily.
pub open spec fn spec_sidecar_port_list(s: Seq<u8>, pos: int) -> (int, Seq<(u8, crate::CasperSidecarPorts)>) {
    match spec_parse_sidecar_view_port_section(s, pos) {
        None => (pos, Seq::empty()),
        Some((p1, v1)) => {
            let r = spec_sidecar_port_list_rest(s, p1);
            (r.0, seq![v1] + r.1)
        },
    }
}

pub fn parse_cctl_infra_sidecar_view_port_lines(input: &[u8], pos: usize) -> (r: (usize, Vec<(u8, crate::CasperSidecarPorts)>))
    requires
        pos <= input@.len(),
    ensures
        r.0 as int == spec_sidecar_port_list(input@, pos as int).0,
        r.1@ == spec_sidecar_port_list(input@, pos as int).1,
        pos <= r.0 <= input@.len(),
{
    let mut items: Vec<(u8, crate::CasperSidecarPorts)> = Vec::new();
    let mut cur: usize;
    match parse_cctl_infra_sidecar_view_port_section(input, pos) {
        None => {
            proof {
                assert(items@ + Seq::<(u8, crate::CasperSidecarPorts)>::empty() =~= items@);
            }
            return (pos, items);
        },
        Some((p1, v1)) => {
            items.push(v1);
            cur = p1;
            proof {
                assert(items@ =~= seq![v1]);
            }
        },
    }
    loop
        invariant
            pos <= cur <= input@.len(),
            spec_sidecar_port_list(input@, pos as int).0 == spec_sidecar_port_list_rest(input@, cur as int).0,
            spec_sidecar_port_list(input@, pos as int).1 == items@ + spec_sidecar_port_list_rest(input@, cur as int).1,
        decreases input@.len() - cur,
    {
        if cur < input.len() && input[cur] == '\n' as u8 {
            match parse_cctl_infra_sidecar_view_port_section(input, cur + 1) {
                Some((p2, v2)) => {
                    proof {
                        let rst = spec_sidecar_port_list_rest(input@, p2 as int);
                        assert(spec_sidecar_port_list_rest(input@, cur as int).1 == seq![v2] + rst.1);
                        assert((items@ + (seq![v2] + rst.1)) =~= ((items@ + seq![v2]) + rst.1));
                    }
                    items.push(v2);
                    cur = p2;
                },
                None => {
                    proof {
                        assert(items@ + Seq::<(u8, crate::CasperSidecarPorts)>::empty() =~= items@);
                    }
                    return (cur, items);
                },
            }
        } else {
            proof {
                assert(items@ + Seq::<(u8, crate::CasperSidecarPorts)>::empty() =~= items@);
            }
            return (cur, items);
        }
    }
}

/// The whole topology log: skip everything before the first occurrence of
/// the `validator-group` marker (or fail when it never occurs), then parse a
/// greedy run of topology lines.
pub open spec fn spec_parse_net_start_lines(s: Seq<u8>, pos: int) -> Option<
    (int, Seq<RawNodeType>),
> {
    match spec_take_until(s, pos, tag_validator_group_marker()) {
        None => None,
        Some(p) => Some(spec_net_start_list(s, p)),
    }
}

pub fn parse_cctl_infra_net_start_lines(input: &[u8], pos: usize) -> (r: Option<
    (usize, Vec<RawNodeType>),
>)
    requires
        pos <= input@.len(),
    ensures
        (match r {
            None => spec_parse_net_start_lines(input@, pos as int) is None,
            Some((p, v)) => spec_parse_net_start_lines(input@, pos as int) == Some((p as int, v@)),
        }),
        r matches Some((p, _)) ==> pos <= p <= input@.len(),
{
    let marker = tag_validator_group_marker_bytes();
    let start = match take_until(input, pos, marker.as_slice()) {
        None => {
            return None;
        },
        Some(p) => p,
    };
    let (end, items) = parse_net_start_list(input, start);
    Some((end, items))
}


// ---------------------------------------------------------------------------
// Laws of the line grammar
// ---------------------------------------------------------------------------

/// The run of bytes satisfying `p` from `pos` ends exactly at `e` when
/// everything before `e` satisfies `p` and `e` stands at the end of the
/// input or on a byte that does not.
proof fn lemma_run_end_exact(s: Seq<u8>, pos: int, p: spec_fn(u8) -> bool, e: int)
    requires
        0 <= pos <= e <= s.len(),
        forall|i: int| pos <= i < e ==> p(s[i]),
        e < s.len() ==> !p(s[e]),
    ensures
        spec_run_end(s, pos, p) == e,
    decreases e - pos,
{
    if pos < e {
        lemma_run_end_exact(s, pos + 1, p, e);
    }
}

/// The decimal value of a digit run depends only on the bytes of the run.
proof fn lemma_dec_value_congruence(s1: Seq<u8>, a1: int, s2: Seq<u8>, a2: int, len: int)
    requires
        forall|k: int| 0 <= k < len ==> s1[#[trigger] (a1 + k)] == s2[a2 + k],
    ensures
        spec_dec_value(s1, a1, a1 + len) == spec_dec_value(s2, a2, a2 + len),
    decreases len,
{
    if len > 0 {
        lemma_dec_value_congruence(s1, a1, s2, a2, len - 1);
    }
}

/// Canonical decimal digits of `n`, most significant first, without leading
/// zeros.
pub open spec fn spec_digits(n: int) -> Seq<u8>
    decreases n,
{
    if n < 10 {
        seq![('0' as u8 + n) as u8]
    } else {
        spec_digits(n / 10) + seq![('0' as u8 + n % 10) as u8]
    }
}

proof fn lemma_digits_are_digits(n: int)
    requires
        0 <= n,
    ensures
        spec_digits(n).len() >= 1,
        forall|i: int| 0 <= i < spec_digits(n).len() ==> is_digit_byte(spec_digits(n)[i]),
    decreases n,
{
    if n >= 10 {
        lemma_digits_are_digits(n / 10);
    }
}

/// Reading the canonical digits of `n` back as a decimal number gives `n`.
proof fn lemma_dec_value_of_digits(n: int)
    requires
        0 <= n,
    ensures
        spec_dec_value(spec_digits(n), 0, spec_digits(n).len() as int) == n,
    decreases n,
{
    let ds = spec_digits(n);
    if n < 10 {
        assert(spec_dec_value(ds, 0, 1) == spec_dec_value(ds, 0, 0) * 10 + (ds[0] - '0' as u8));
    } else {
        let dh = spec_digits(n / 10);
        let lh = dh.len() as int;
        lemma_dec_value_of_digits(n / 10);
        lemma_dec_value_congruence(ds, 0, dh, 0, lh);
        assert(spec_dec_value(ds, 0, lh + 1) == spec_dec_value(ds, 0, lh) * 10 + (ds[lh]
            - '0' as u8));
        assert(ds[lh] == ('0' as u8 + n % 10) as u8);
        vstd::arithmetic::div_mod::lemma_fundamental_div_mod(n, 10);
    }
}

/// The token that renders a run state.
pub open spec fn spec_state_token(state: NodeState) -> Seq<u8> {
    match state {
        NodeState::Running => tag_running(),
        NodeState::Stopped => tag_stopped(),
    }
}

/// The shape every well-formed topology line shares: whitespace may lead
/// the line, at least one space or tab separates the name from the state
/// token, and the trailing text holds no line break.
pub open spec fn spec_line_shape_ok(lead: Seq<u8>, pad: Seq<u8>, trail: Seq<u8>) -> bool {
    &&& forall|i: int| 0 <= i < lead.len() ==> is_multispace_byte(lead[i])
    &&& pad.len() >= 1
    &&& forall|i: int| 0 <= i < pad.len() ==> is_space_tab_byte(pad[i])
    &&& forall|i: int| 0 <= i < trail.len() ==> !is_line_break_byte(trail[i])
}

/// A node line rendered from its fields.
pub open spec fn spec_render_node_line(
    lead: Seq<u8>,
    group: u8,
    node: u8,
    state: NodeState,
    pad: Seq<u8>,
    trail: Seq<u8>,
) -> Seq<u8> {
    lead + tag_validator_group() + spec_digits(group as int) + tag_cctl_node() + spec_digits(
        node as int,
    ) + pad + spec_state_token(state) + trail
}

/// A sidecar line rendered from its fields: the node-line rendering with
/// the sidecar suffix after the node id.
pub open spec fn spec_render_sidecar_line(
    lead: Seq<u8>,
    group: u8,
    node: u8,
    state: NodeState,
    pad: Seq<u8>,
    trail: Seq<u8>,
) -> Seq<u8> {
    lead + tag_validator_group() + spec_digits(group as int) + tag_cctl_node() + spec_digits(
        node as int,
    ) + tag_sidecar_suffix() + pad + spec_state_token(state) + trail
}

/// Law: a well-formed node line standing at `pos` — the whole rest of the
/// input, or followed by a line feed — parses to exactly the group id, node
/// id and run state it was rendered from, and consumes the whole line. The
/// sidecar pattern fails on it, so the combined topology-line parser
/// classifies it as a node record.
#[verifier::rlimit(60)]
pub proof fn lemma_parse_node_line_at(
    s: Seq<u8>,
    pos: int,
    lead: Seq<u8>,
    group: u8,
    node: u8,
    state: NodeState,
    pad: Seq<u8>,
    trail: Seq<u8>,
)
    requires
        spec_line_shape_ok(lead, pad, trail),
        spec_match_at(s, pos, spec_render_node_line(lead, group, node, state, pad, trail)),
        pos + spec_render_node_line(lead, group, node, state, pad, trail).len() == s.len() || s[pos
            + spec_render_node_line(lead, group, node, state, pad, trail).len()] == '\n' as u8,
    ensures
        spec_parse_node_line(s, pos) == Some(
            (
                pos + spec_render_node_line(lead, group, node, state, pad, trail).len() as int,
                RawNodeType::CasperNode(group, node, state),
            ),
        ),
        spec_parse_sidecar_line(s, pos) is None,
        spec_parse_net_start_line(s, pos) == Some(
            (
                pos + spec_render_node_line(lead, group, node, state, pad, trail).len() as int,
                RawNodeType::CasperNode(group, node, state),
            ),
        ),
{
    let dg = spec_digits(group as int);
    let dn = spec_digits(node as int);
    let token = spec_state_token(state);
    let rendered = spec_render_node_line(lead, group, node, state, pad, trail);
    let rl = rendered.len() as int;
    lemma_digits_are_digits(group as int);
    lemma_digits_are_digits(node as int);
    let l0 = pos + lead.len() as int;
    let l1 = l0 + tag_validator_group().len() as int;
    let l2 = l1 + dg.len() as int;
    let l3 = l2 + tag_cctl_node().len() as int;
    let l4 = l3 + dn.len() as int;
    let l5 = l4 + pad.len() as int;
    let l6 = l5 + token.len() as int;
    let l7 = l6 + trail.len() as int;
    assert(l7 == pos + rl);
    assert forall|i: int| pos <= i < l0 implies is_multispace_byte(s[i]) by {
        assert(s.subrange(pos, pos + rl)[i - pos] == s[i]);
        assert(rendered[i - pos] == lead[i - pos]);
    }
    assert(s[l0] == tag_validator_group()[0]) by {
        assert(s.subrange(pos, pos + rl)[l0 - pos] == s[l0]);
        assert(rendered[l0 - pos] == tag_validator_group()[0]);
    }
    lemma_run_end_exact(s, pos, multispace_pred(), l0);
    assert forall|k: int| 0 <= k < tag_validator_group().len() implies s[l0 + k] == tag_validator_group()[k] by {
        assert(s.subrange(pos, pos + rl)[l0 - pos + k] == s[l0 + k]);
        assert(rendered[l0 - pos + k] == tag_validator_group()[k]);
    }
    assert(s.subrange(l0, l1) =~= tag_validator_group());
    assert(spec_tag(s, l0, tag_validator_group()) == Some(l1));
    assert forall|k: int| 0 <= k < dg.len() implies s[l1 + k] == dg[k] by {
        assert(s.subrange(pos, pos + rl)[l1 - pos + k] == s[l1 + k]);
        assert(rendered[l1 - pos + k] == dg[k]);
    }
    assert(s[l2] == tag_cctl_node()[0]) by {
        assert(s.subrange(pos, pos + rl)[l2 - pos] == s[l2]);
        assert(rendered[l2 - pos] == tag_cctl_node()[0]);
    }
    assert(!is_digit_byte(':' as u8));
    assert forall|i: int| l1 <= i < l2 implies is_digit_byte(s[i]) by {
        assert(s[l1 + (i - l1)] == dg[i - l1]);
    }
    lemma_run_end_exact(s, l1, digit_pred(), l2);
    lemma_dec_value_congruence(s, l1, dg, 0, dg.len() as int);
    lemma_dec_value_of_digits(group as int);
    assert(spec_parse_u8_num(s, l1) == Some((l2, group)));
    assert forall|k: int| 0 <= k < tag_cctl_node().len() implies s[l2 + k] == tag_cctl_node()[k] by {
        assert(s.subrange(pos, pos + rl)[l2 - pos + k] == s[l2 + k]);
        assert(rendered[l2 - pos + k] == tag_cctl_node()[k]);
    }
    assert(s.subrange(l2, l3) =~= tag_cctl_node());
    assert(spec_tag(s, l2, tag_cctl_node()) == Some(l3));
    assert forall|k: int| 0 <= k < dn.len() implies s[l3 + k] == dn[k] by {
        assert(s.subrange(pos, pos + rl)[l3 - pos + k] == s[l3 + k]);
        assert(rendered[l3 - pos + k] == dn[k]);
    }
    assert(s[l4] == pad[0]) by {
        assert(s.subrange(pos, pos + rl)[l4 - pos] == s[l4]);
        assert(rendered[l4 - pos] == pad[0]);
    }
    assert forall|i: int| l3 <= i < l4 implies is_digit_byte(s[i]) by {
        assert(s[l3 + (i - l3)] == dn[i - l3]);
    }
    lemma_run_end_exact(s, l3, digit_pred(), l4);
    lemma_dec_value_congruence(s, l3, dn, 0, dn.len() as int);
    lemma_dec_value_of_digits(node as int);
    assert(spec_parse_u8_num(s, l3) == Some((l4, node)));
    assert forall|i: int| l4 <= i < l5 implies is_space_tab_byte(s[i]) by {
        assert(s.subrange(pos, pos + rl)[i - pos] == s[i]);
        assert(rendered[i - pos] == pad[i - l4]);
    }
    assert(s[l5] == token[0]) by {
        assert(s.subrange(pos, pos + rl)[l5 - pos] == s[l5]);
        assert(rendered[l5 - pos] == token[0]);
    }
    lemma_run_end_exact(s, l4, space_tab_pred(), l5);
    assert(spec_space1(s, l4) == Some(l5));
    assert forall|k: int| 0 <= k < token.len() implies s[l5 + k] == token[k] by {
        assert(s.subrange(pos, pos + rl)[l5 - pos + k] == s[l5 + k]);
        assert(rendered[l5 - pos + k] == token[k]);
    }
    assert(s.subrange(l5, l6) =~= token);
    match state {
        NodeState::Running => {
            assert(spec_match_at(s, l5, tag_running()));
        },
        NodeState::Stopped => {
            assert(s[l5] == 'S' as u8);
            if spec_match_at(s, l5, tag_running()) {
                assert(s.subrange(l5, l5 + tag_running().len())[0] == 'R' as u8);
            }
            assert(spec_match_at(s, l5, tag_stopped()));
        },
    }
    assert(spec_parse_node_state(s, l5) == Some((l6, state)));
    assert forall|i: int| l6 <= i < l7 implies !is_line_break_byte(s[i]) by {
        assert(s.subrange(pos, pos + rl)[i - pos] == s[i]);
        assert(rendered[i - pos] == trail[i - l6]);
    }
    lemma_run_end_exact(s, l6, line_content_pred(), l7);
    assert(spec_not_line_ending(s, l6) == Some(l7));
    if spec_match_at(s, l4, tag_sidecar_suffix()) {
        assert(s.subrange(l4, l4 + tag_sidecar_suffix().len())[0] == '-' as u8);
        assert(is_space_tab_byte('-' as u8));
    }
    assert(spec_tag(s, l4, tag_sidecar_suffix()) is None);
}

/// Law: a well-formed sidecar line standing at `pos` — the whole rest of
/// the input, or followed by a line feed — parses to exactly the fields it
/// was rendered from, consuming the whole line, and the combined
/// topology-line parser classifies it as a sidecar record: a sidecar line
/// is never taken for a plain node line.
#[verifier::rlimit(60)]
pub proof fn lemma_parse_sidecar_line_at(
    s: Seq<u8>,
    pos: int,
    lead: Seq<u8>,
    group: u8,
    node: u8,
    state: NodeState,
    pad: Seq<u8>,
    trail: Seq<u8>,
)
    requires
        spec_line_shape_ok(lead, pad, trail),
        spec_match_at(s, pos, spec_render_sidecar_line(lead, group, node, state, pad, trail)),
        pos + spec_render_sidecar_line(lead, group, node, state, pad, trail).len() == s.len()
            || s[pos + spec_render_sidecar_line(lead, group, node, state, pad, trail).len()]
            == '\n' as u8,
    ensures
        spec_parse_sidecar_line(s, pos) == Some(
            (
                pos + spec_render_sidecar_line(lead, group, node, state, pad, trail).len() as int,
                RawNodeType::CasperSidecar(group, node, state),
            ),
        ),
        spec_parse_net_start_line(s, pos) == Some(
            (
                pos + spec_render_sidecar_line(lead, group, node, state, pad, trail).len() as int,
                RawNodeType::CasperSidecar(group, node, state),
            ),
        ),
{
    let dg = spec_digits(group as int);
    let dn = spec_digits(node as int);
    let token = spec_state_token(state);
    let rendered = spec_render_sidecar_line(lead, group, node, state, pad, trail);
    let rl = rendered.len() as int;
    lemma_digits_are_digits(group as int);
    lemma_digits_are_digits(node as int);
    let l0 = pos + lead.len() as int;
    let l1 = l0 + tag_validator_group().len() as int;
    let l2 = l1 + dg.len() as int;
    let l3 = l2 + tag_cctl_node().len() as int;
    let l4 = l3 + dn.len() as int;
    let l4b = l4 + tag_sidecar_suffix().len() as int;
    let l5 = l4b + pad.len() as int;
    let l6 = l5 + token.len() as int;
    let l7 = l6 + trail.len() as int;
    assert(l7 == pos + rl);
    assert forall|i: int| pos <= i < l0 implies is_multispace_byte(s[i]) by {
        assert(s.subrange(pos, pos + rl)[i - pos] == s[i]);
        assert(rendered[i - pos] == lead[i - pos]);
    }
    assert(s[l0] == tag_validator_group()[0]) by {
        assert(s.subrange(pos, pos + rl)[l0 - pos] == s[l0]);
        assert(rendered[l0 - pos] == tag_validator_group()[0]);
    }
    lemma_run_end_exact(s, pos, multispace_pred(), l0);
    assert forall|k: int| 0 <= k < tag_validator_group().len() implies s[l0 + k] == tag_validator_group()[k] by {
        assert(s.subrange(pos, pos + rl)[l0 - pos + k] == s[l0 + k]);
        assert(rendered[l0 - pos + k] == tag_validator_group()[k]);
    }
    assert(s.subrange(l0, l1) =~= tag_validator_group());
    assert(spec_tag(s, l0, tag_validator_group()) == Some(l1));
    assert forall|k: int| 0 <= k < dg.len() implies s[l1 + k] == dg[k] by {
        assert(s.subrange(pos, pos + rl)[l1 - pos + k] == s[l1 + k]);
        assert(rendered[l1 - pos + k] == dg[k]);
    }
    assert(s[l2] == tag_cctl_node()[0]) by {
        assert(s.subrange(pos, pos + rl)[l2 - pos] == s[l2]);
        assert(rendered[l2 - pos] == tag_cctl_node()[0]);
    }
    assert(!is_digit_byte(':' as u8));
    assert forall|i: int| l1 <= i < l2 implies is_digit_byte(s[i]) by {
        assert(s[l1 + (i - l1)] == dg[i - l1]);
    }
    lemma_run_end_exact(s, l1, digit_pred(), l2);
    lemma_dec_value_congruence(s, l1, dg, 0, dg.len() as int);
    lemma_dec_value_of_digits(group as int);
    assert(spec_parse_u8_num(s, l1) == Some((l2, group)));
    assert forall|k: int| 0 <= k < tag_cctl_node().len() implies s[l2 + k] == tag_cctl_node()[k] by {
        assert(s.subrange(pos, pos + rl)[l2 - pos + k] == s[l2 + k]);
        assert(rendered[l2 - pos + k] == tag_cctl_node()[k]);
    }
    assert(s.subrange(l2, l3) =~= tag_cctl_node());
    assert(spec_tag(s, l2, tag_cctl_node()) == Some(l3));
    assert forall|k: int| 0 <= k < dn.len() implies s[l3 + k] == dn[k] by {
        assert(s.subrange(pos, pos + rl)[l3 - pos + k] == s[l3 + k]);
        assert(rendered[l3 - pos + k] == dn[k]);
    }
    assert(s[l4] == tag_sidecar_suffix()[0]) by {
        assert(s.subrange(pos, pos + rl)[l4 - pos] == s[l4]);
        assert(rendered[l4 - pos] == tag_sidecar_suffix()[0]);
    }
    assert(!is_digit_byte('-' as u8));
    assert forall|i: int| l3 <= i < l4 implies is_digit_byte(s[i]) by {
        assert(s[l3 + (i - l3)] == dn[i - l3]);
    }
    lemma_run_end_exact(s, l3, digit_pred(), l4);
    lemma_dec_value_congruence(s, l3, dn, 0, dn.len() as int);
    lemma_dec_value_of_digits(node as int);
    assert(spec_parse_u8_num(s, l3) == Some((l4, node)));
    assert forall|k: int| 0 <= k < tag_sidecar_suffix().len() implies s[l4 + k] == tag_sidecar_suffix()[k] by {
        assert(s.subrange(pos, pos + rl)[l4 - pos + k] == s[l4 + k]);
        assert(rendered[l4 - pos + k] == tag_sidecar_suffix()[k]);
    }
    assert(s.subrange(l4, l4b) =~= tag_sidecar_suffix());
    assert(spec_tag(s, l4, tag_sidecar_suffix()) == Some(l4b));
    assert forall|i: int| l4b <= i < l5 implies is_space_tab_byte(s[i]) by {
        assert(s.subrange(pos, pos + rl)[i - pos] == s[i]);
        assert(rendered[i - pos] == pad[i - l4b]);
    }
    assert(s[l5] == token[0]) by {
        assert(s.subrange(pos, pos + rl)[l5 - pos] == s[l5]);
        assert(rendered[l5 - pos] == token[0]);
    }
    lemma_run_end_exact(s, l4b, space_tab_pred(), l5);
    assert(spec_space1(s, l4b) == Some(l5));
    assert forall|k: int| 0 <= k < token.len() implies s[l5 + k] == token[k] by {
        assert(s.subrange(pos, pos + rl)[l5 - pos + k] == s[l5 + k]);
        assert(rendered[l5 - pos + k] == token[k]);
    }
    assert(s.subrange(l5, l6) =~= token);
    match state {
        NodeState::Running => {
            assert(spec_match_at(s, l5, tag_running()));
        },
        NodeState::Stopped => {
            assert(s[l5] == 'S' as u8);
            if spec_match_at(s, l5, tag_running()) {
                assert(s.subrange(l5, l5 + tag_running().len())[0] == 'R' as u8);
            }
            assert(spec_match_at(s, l5, tag_stopped()));
        },
    }
    assert(spec_parse_node_state(s, l5) == Some((l6, state)));
    assert forall|i: int| l6 <= i < l7 implies !is_line_break_byte(s[i]) by {
        assert(s.subrange(pos, pos + rl)[i - pos] == s[i]);
        assert(rendered[i - pos] == trail[i - l6]);
    }
    lemma_run_end_exact(s, l6, line_content_pred(), l7);
    assert(spec_not_line_ending(s, l6) == Some(l7));
}

/// Law: a well-formed node line on its own parses to exactly the fields it
/// encodes.
pub proof fn lemma_parse_node_line_exact(
    lead: Seq<u8>,
    group: u8,
    node: u8,
    state: NodeState,
    pad: Seq<u8>,
    trail: Seq<u8>,
)
    requires
        spec_line_shape_ok(lead, pad, trail),
    ensures
        spec_parse_node_line(spec_render_node_line(lead, group, node, state, pad, trail), 0)
            == Some(
            (
                spec_render_node_line(lead, group, node, state, pad, trail).len() as int,
                RawNodeType::CasperNode(group, node, state),
            ),
        ),
{
    let rendered = spec_render_node_line(lead, group, node, state, pad, trail);
    assert(rendered.subrange(0, rendered.len() as int) =~= rendered);
    lemma_parse_node_line_at(rendered, 0, lead, group, node, state, pad, trail);
}

/// Law: a well-formed sidecar line on its own parses to exactly the fields
/// it encodes.
pub proof fn lemma_parse_sidecar_line_exact(
    lead: Seq<u8>,
    group: u8,
    node: u8,
    state: NodeState,
    pad: Seq<u8>,
    trail: Seq<u8>,
)
    requires
        spec_line_shape_ok(lead, pad, trail),
    ensures
        spec_parse_sidecar_line(spec_render_sidecar_line(lead, group, node, state, pad, trail), 0)
            == Some(
            (
                spec_render_sidecar_line(lead, group, node, state, pad, trail).len() as int,
                RawNodeType::CasperSidecar(group, node, state),
            ),
        ),
{
    let rendered = spec_render_sidecar_line(lead, group, node, state, pad, trail);
    assert(rendered.subrange(0, rendered.len() as int) =~= rendered);
    lemma_parse_sidecar_line_at(rendered, 0, lead, group, node, state, pad, trail);
}

/// Law: a well-formed sidecar line is never taken for a plain node line:
/// the combined topology-line parser classifies it as a sidecar record.
pub proof fn lemma_sidecar_never_misclassified(
    lead: Seq<u8>,
    group: u8,
    node: u8,
    state: NodeState,
    pad: Seq<u8>,
    trail: Seq<u8>,
)
    requires
        spec_line_shape_ok(lead, pad, trail),
    ensures
        spec_parse_net_start_line(spec_render_sidecar_line(lead, group, node, state, pad, trail), 0)
            == Some(
            (
                spec_render_sidecar_line(lead, group, node, state, pad, trail).len() as int,
                RawNodeType::CasperSidecar(group, node, state),
            ),
        ),
{
    let rendered = spec_render_sidecar_line(lead, group, node, state, pad, trail);
    assert(rendered.subrange(0, rendered.len() as int) =~= rendered);
    lemma_parse_sidecar_line_at(rendered, 0, lead, group, node, state, pad, trail);
}

// ---------------------------------------------------------------------------
// Laws of the record lists
// ---------------------------------------------------------------------------

/// Law: the topology-log record list is parsed in input order, one record
/// per line: a first record and, after a line feed, a further run of
/// records compose front to back.
pub proof fn lemma_net_start_list_cons(s: Seq<u8>, pos: int, p1: int, v1: RawNodeType)
    requires
        0 <= pos,
        spec_parse_net_start_line(s, pos) == Some((p1, v1)),
        pos < p1 <= s.len(),
    ensures
        spec_net_start_list(s, pos).0 == spec_net_start_list_rest(s, p1).0,
        spec_net_start_list(s, pos).1 == seq![v1] + spec_net_start_list_rest(s, p1).1,
{
}

/// Law: port sections are parsed greedily and in input order: a first
/// section and, after a line feed, a further run of sections compose front
/// to back, so feeding several sections yields their tuples in input order.
pub proof fn lemma_node_port_list_cons(
    s: Seq<u8>,
    pos: int,
    p1: int,
    v1: (u8, crate::CasperNodePorts),
)
    requires
        0 <= pos,
        spec_parse_node_view_port_section(s, pos) == Some((p1, v1)),
        pos < p1 <= s.len(),
    ensures
        spec_node_port_list(s, pos).0 == spec_node_port_list_rest(s, p1).0,
        spec_node_port_list(s, pos).1 == seq![v1] + spec_node_port_list_rest(s, p1).1,
{
}

/// Law: sidecar port sections compose the same way as node port sections.
pub proof fn lemma_sidecar_port_list_cons(
    s: Seq<u8>,
    pos: int,
    p1: int,
    v1: (u8, crate::CasperSidecarPorts),
)
    requires
        0 <= pos,
        spec_parse_sidecar_view_port_section(s, pos) == Some((p1, v1)),
        pos < p1 <= s.len(),
    ensures
        spec_sidecar_port_list(s, pos).0 == spec_sidecar_port_list_rest(s, p1).0,
        spec_sidecar_port_list(s, pos).1 == seq![v1] + spec_sidecar_port_list_rest(s, p1).1,
{
}


/// Law: a log whose head is a well-formed node line followed by a line
/// feed (or by nothing) yields exactly that node record first, and then the
/// records of the rest of the log, in order.
pub proof fn lemma_log_head_node_line(
    s: Seq<u8>,
    pos: int,
    lead: Seq<u8>,
    group: u8,
    node: u8,
    state: NodeState,
    pad: Seq<u8>,
    trail: Seq<u8>,
)
    requires
        spec_line_shape_ok(lead, pad, trail),
        spec_match_at(s, pos, spec_render_node_line(lead, group, node, state, pad, trail)),
        pos + spec_render_node_line(lead, group, node, state, pad, trail).len() == s.len() || s[pos
            + spec_render_node_line(lead, group, node, state, pad, trail).len()] == '\n' as u8,
    ensures
        spec_net_start_list(s, pos).1 == seq![RawNodeType::CasperNode(group, node, state)]
            + spec_net_start_list_rest(
            s,
            pos + spec_render_node_line(lead, group, node, state, pad, trail).len() as int,
        ).1,
{
    let rl = spec_render_node_line(lead, group, node, state, pad, trail).len() as int;
    lemma_parse_node_line_at(s, pos, lead, group, node, state, pad, trail);
    lemma_net_start_list_cons(s, pos, pos + rl, RawNodeType::CasperNode(group, node, state));
}

/// Law: a log whose head is a well-formed sidecar line composes the same
/// way, with the head classified as a sidecar record.
pub proof fn lemma_log_head_sidecar_line(
    s: Seq<u8>,
    pos: int,
    lead: Seq<u8>,
    group: u8,
    node: u8,
    state: NodeState,
    pad: Seq<u8>,
    trail: Seq<u8>,
)
    requires
        spec_line_shape_ok(lead, pad, trail),
        spec_match_at(s, pos, spec_render_sidecar_line(lead, group, node, state, pad, trail)),
        pos + spec_render_sidecar_line(lead, group, node, state, pad, trail).len() == s.len()
            || s[pos + spec_render_sidecar_line(lead, group, node, state, pad, trail).len()]
            == '\n' as u8,
    ensures
        spec_net_start_list(s, pos).1 == seq![RawNodeType::CasperSidecar(group, node, state)]
            + spec_net_start_list_rest(
            s,
            pos + spec_render_sidecar_line(lead, group, node, state, pad, trail).len() as int,
        ).1,
{
    let rl = spec_render_sidecar_line(lead, group, node, state, pad, trail).len() as int;
    lemma_parse_sidecar_line_at(s, pos, lead, group, node, state, pad, trail);
    lemma_net_start_list_cons(s, pos, pos + rl, RawNodeType::CasperSidecar(group, node, state));
}

} // verus!
