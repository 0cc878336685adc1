//! The address model: a parsed network block of either family, the text of a
//! single address, and the expansion of one input line into lookup targets.

use vstd::prelude::*;
use vstd::arithmetic::power2::pow2;
use vstd::arithmetic::power2::lemma_pow2_adds;
use vstd::arithmetic::power2::lemma_pow2_pos;
use vstd::arithmetic::power2::lemma2_to64;
use vstd::arithmetic::div_mod::lemma_fundamental_div_mod_converse;
use vstd::bits::lemma_u32_shr_is_div;
use vstd::bits::lemma_u128_shr_is_div;
use crate::text::string_of;

verus! {

/// The decimal digit character for a value below ten.
pub open spec fn dec_digit(d: nat) -> char {
    if d == 0 {
        '0'
    } else if d == 1 {
        '1'
    } else if d == 2 {
        '2'
    } else if d == 3 {
        '3'
    } else if d == 4 {
        '4'
    } else if d == 5 {
        '5'
    } else if d == 6 {
        '6'
    } else if d == 7 {
        '7'
    } else if d == 8 {
        '8'
    } else {
        '9'
    }
}

/// The lowercase hexadecimal digit character for a value below sixteen.
pub open spec fn hex_digit(d: nat) -> char {
    if d < 10 {
        dec_digit(d)
    } else if d == 10 {
        'a'
    } else if d == 11 {
        'b'
    } else if d == 12 {
        'c'
    } else if d == 13 {
        'd'
    } else if d == 14 {
        'e'
    } else {
        'f'
    }
}

/// The decimal text of an octet: no leading zeroes, at most three digits.
pub open spec fn dec_octet(n: nat) -> Seq<char> {
    if n < 10 {
        seq![dec_digit(n)]
    } else if n < 100 {
        seq![dec_digit(n / 10), dec_digit(n % 10)]
    } else {
        seq![dec_digit(n / 100), dec_digit((n / 10) % 10), dec_digit(n % 10)]
    }
}

/// The lowercase hexadecimal text of a sixteen-bit group: no leading zeroes,
/// at most four digits.
pub open spec fn hex_group(g: nat) -> Seq<char> {
    if g < 16 {
        seq![hex_digit(g)]
    } else if g < 256 {
        seq![hex_digit(g / 16), hex_digit(g % 16)]
    } else if g < 4096 {
        seq![hex_digit(g / 256), hex_digit((g / 16) % 16), hex_digit(g % 16)]
    } else {
        seq![
            hex_digit(g / 4096),
            hex_digit((g / 256) % 16),
            hex_digit((g / 16) % 16),
            hex_digit(g % 16),
        ]
    }
}

/// The dotted-quad text of a version-four address.
pub open spec fn v4_text(a: u32) -> Seq<char> {
    dec_octet(a as nat / 0x1000000) + seq!['.'] + dec_octet((a as nat / 0x10000) % 256)
        + seq!['.'] + dec_octet((a as nat / 0x100) % 256) + seq!['.'] + dec_octet(a as nat % 256)
}

/// The sixteen-bit group of a version-six address at position `i`, counted
/// from the most significant group.
pub open spec fn v6_group(a: u128, i: int) -> nat {
    if i == 0 {
        a as nat / 0x10000000000000000000000000000
    } else if i == 1 {
        (a as nat / 0x1000000000000000000000000) % 0x10000
    } else if i == 2 {
        (a as nat / 0x100000000000000000000) % 0x10000
    } else if i == 3 {
        (a as nat / 0x10000000000000000) % 0x10000
    } else if i == 4 {
        (a as nat / 0x1000000000000) % 0x10000
    } else if i == 5 {
        (a as nat / 0x100000000) % 0x10000
    } else if i == 6 {
        (a as nat / 0x10000) % 0x10000
    } else {
        a as nat % 0x10000
    }
}

/// The length of the run of zero groups starting at group `i`.
pub open spec fn zero_run_len(a: u128, i: int) -> int
    decreases 8 - i,
{
    if i < 0 || i >= 8 {
        0
    } else if v6_group(a, i) != 0 {
        0
    } else {
        1 + zero_run_len(a, i + 1)
    }
}

/// The leftmost longest run of zero groups at or after `i`: its start and
/// its length. The scan comes from the left and keeps ties on the earlier
/// start, so the leftmost longest run wins.
pub open spec fn best_zero_run(a: u128, i: int) -> (int, int)
    decreases 8 - i,
{
    if i >= 8 {
        (8, 0)
    } else {
        let here = zero_run_len(a, i);
        let rest = best_zero_run(a, i + 1);
        if here >= rest.1 {
            (i, here)
        } else {
            rest
        }
    }
}

/// Whether the address is a version-four-mapped one.
pub open spec fn is_v4_mapped(a: u128) -> bool {
    a as nat / 0x100000000 == 0xffff
}

/// The groups in `[from, to)`, separated by colons.
pub open spec fn groups_text(a: u128, from: int, to: int) -> Seq<char>
    decreases to - from,
{
    if from >= to {
        Seq::<char>::empty()
    } else if from + 1 >= to {
        hex_group(v6_group(a, from))
    } else {
        hex_group(v6_group(a, from)) + seq![':'] + groups_text(a, from + 1, to)
    }
}

/// The colon-hex text of a version-six address, in the standard textual
/// form: lowercase groups without leading zeroes, the leftmost longest run
/// of two or more zero groups elided to a double colon, and a
/// version-four-mapped address written with its dotted tail.
pub open spec fn v6_text(a: u128) -> Seq<char> {
    if is_v4_mapped(a) {
        seq![':', ':', 'f', 'f', 'f', 'f', ':'] + v4_text((a % 0x100000000) as u32)
    } else {
        let run = best_zero_run(a, 0);
        if run.1 >= 2 {
            groups_text(a, 0, run.0) + seq![':', ':'] + groups_text(a, run.0 + run.1, 8)
        } else {
            groups_text(a, 0, 8)
        }
    }
}

fn dec_digit_char(d: u8) -> (c: char)
    requires
        d < 10,
    ensures
        c == dec_digit(d as nat),
{
    if d == 0 {
        '0'
    } else if d == 1 {
        '1'
    } else if d == 2 {
        '2'
    } else if d == 3 {
        '3'
    } else if d == 4 {
        '4'
    } else if d == 5 {
        '5'
    } else if d == 6 {
        '6'
    } else if d == 7 {
        '7'
    } else if d == 8 {
        '8'
    } else {
        '9'
    }
}

fn hex_digit_char(d: u8) -> (c: char)
    requires
        d < 16,
    ensures
        c == hex_digit(d as nat),
{
    if d < 10 {
        dec_digit_char(d)
    } else if d == 10 {
        'a'
    } else if d == 11 {
        'b'
    } else if d == 12 {
        'c'
    } else if d == 13 {
        'd'
    } else if d == 14 {
        'e'
    } else {
        'f'
    }
}

fn push_dec_octet(out: &mut Vec<char>, n: u8)
    ensures
        final(out)@ == old(out)@ + dec_octet(n as nat),
{
    if n < 10 {
        out.push(dec_digit_char(n));
    } else if n < 100 {
        out.push(dec_digit_char(n / 10));
        out.push(dec_digit_char(n % 10));
    } else {
        out.push(dec_digit_char(n / 100));
        out.push(dec_digit_char((n / 10) % 10));
        out.push(dec_digit_char(n % 10));
    }
    proof {
        assert(out@ =~= old(out)@ + dec_octet(n as nat));
    }
}

fn push_hex_group(out: &mut Vec<char>, g: u16)
    ensures
        final(out)@ == old(out)@ + hex_group(g as nat),
{
    if g < 16 {
        out.push(hex_digit_char(g as u8));
    } else if g < 256 {
        out.push(hex_digit_char((g / 16) as u8));
        out.push(hex_digit_char((g % 16) as u8));
    } else if g < 4096 {
        out.push(hex_digit_char((g / 256) as u8));
        out.push(hex_digit_char(((g / 16) % 16) as u8));
        out.push(hex_digit_char((g % 16) as u8));
    } else {
        out.push(hex_digit_char((g / 4096) as u8));
        out.push(hex_digit_char(((g / 256) % 16) as u8));
        out.push(hex_digit_char(((g / 16) % 16) as u8));
        out.push(hex_digit_char((g % 16) as u8));
    }
    proof {
        assert(out@ =~= old(out)@ + hex_group(g as nat));
    }
}

fn push_v4(out: &mut Vec<char>, a: u32)
    ensures
        final(out)@ == old(out)@ + v4_text(a),
{
    push_dec_octet(out, (a / 0x1000000) as u8);
    out.push('.');
    push_dec_octet(out, ((a / 0x10000) % 256) as u8);
    out.push('.');
    push_dec_octet(out, ((a / 0x100) % 256) as u8);
    out.push('.');
    push_dec_octet(out, (a % 256) as u8);
    proof {
        assert(out@ =~= old(out)@ + v4_text(a));
    }
}

/// The dotted-quad text of a version-four address.
pub fn format_v4(a: u32) -> (r: String)
    ensures
        r@ == v4_text(a),
{
    let mut out: Vec<char> = Vec::new();
    push_v4(&mut out, a);
    proof {
        assert(out@ =~= v4_text(a));
    }
    string_of(&out)
}

/// The sixteen-bit group of `a` at position `i`.
fn group_at(a: u128, i: usize) -> (g: u16)
    requires
        i < 8,
    ensures
        g as nat == v6_group(a, i as int),
{
    if i == 0 {
        proof {
            assert(a as nat / 0x10000000000000000000000000000 < 0x10000) by (nonlinear_arith)
                requires
                    a <= u128::MAX,
            ;
        }
        (a / 0x10000000000000000000000000000) as u16
    } else if i == 1 {
        ((a / 0x1000000000000000000000000) % 0x10000) as u16
    } else if i == 2 {
        ((a / 0x100000000000000000000) % 0x10000) as u16
    } else if i == 3 {
        ((a / 0x10000000000000000) % 0x10000) as u16
    } else if i == 4 {
        ((a / 0x1000000000000) % 0x10000) as u16
    } else if i == 5 {
        ((a / 0x100000000) % 0x10000) as u16
    } else if i == 6 {
        ((a / 0x10000) % 0x10000) as u16
    } else {
        (a % 0x10000) as u16
    }
}

fn zero_run_len_at(a: u128, i: usize) -> (l: usize)
    requires
        i <= 8,
    ensures
        l as int == zero_run_len(a, i as int),
        l <= 8 - i,
    decreases 8 - i,
{
    if i >= 8 {
        0
    } else if group_at(a, i) != 0 {
        0
    } else {
        1 + zero_run_len_at(a, i + 1)
    }
}

fn best_zero_run_at(a: u128, i: usize) -> (r: (usize, usize))
    requires
        i <= 8,
    ensures
        r.0 as int == best_zero_run(a, i as int).0,
        r.1 as int == best_zero_run(a, i as int).1,
        i <= r.0 <= 8,
        r.0 + r.1 <= 8,
    decreases 8 - i,
{
    if i >= 8 {
        (8, 0)
    } else {
        let here = zero_run_len_at(a, i);
        let rest = best_zero_run_at(a, i + 1);
        if here >= rest.1 {
            (i, here)
        } else {
            rest
        }
    }
}

fn push_groups(out: &mut Vec<char>, a: u128, from: usize, to: usize)
    requires
        from <= to <= 8,
    ensures
        final(out)@ == old(out)@ + groups_text(a, from as int, to as int),
    decreases to - from,
{
    if from >= to {
        proof {
            assert(out@ =~= old(out)@ + groups_text(a, from as int, to as int));
        }
    } else if from + 1 >= to {
        push_hex_group(out, group_at(a, from));
        proof {
            assert(out@ =~= old(out)@ + groups_text(a, from as int, to as int));
        }
    } else {
        push_hex_group(out, group_at(a, from));
        out.push(':');
        push_groups(out, a, from + 1, to);
        proof {
            assert(out@ =~= old(out)@ + groups_text(a, from as int, to as int));
        }
    }
}

/// The colon-hex text of a version-six address.
pub fn format_v6(a: u128) -> (r: String)
    ensures
        r@ == v6_text(a),
{
    let mut out: Vec<char> = Vec::new();
    if a / 0x100000000 == 0xffff {
        out.push(':');
        out.push(':');
        out.push('f');
        out.push('f');
        out.push('f');
        out.push('f');
        out.push(':');
        push_v4(&mut out, (a % 0x100000000) as u32);
        proof {
            assert(out@ =~= v6_text(a));
        }
    } else {
        let run = best_zero_run_at(a, 0);
        if run.1 >= 2 {
            push_groups(&mut out, a, 0, run.0);
            out.push(':');
            out.push(':');
            push_groups(&mut out, a, run.0 + run.1, 8);
            proof {
                assert(out@ =~= v6_text(a));
            }
        } else {
            push_groups(&mut out, a, 0, 8);
            proof {
                assert(out@ =~= v6_text(a));
            }
        }
    }
    string_of(&out)
}

/// The host-bits mask of a version-four prefix: ones exactly on the bits the
/// prefix leaves free.
pub open spec fn v4_host_mask(prefix: u8) -> u32 {
    if prefix >= 32 {
        0u32
    } else {
        u32::MAX >> (prefix as u32)
    }
}

/// The host-bits mask of a version-six prefix.
pub open spec fn v6_host_mask(prefix: u8) -> u128 {
    if prefix >= 128 {
        0u128
    } else {
        u128::MAX >> (prefix as u128)
    }
}

/// A network block as one input line names it: the address exactly as
/// written (the base) and the prefix length.
#[derive(Clone, Copy, Debug, PartialEq, Eq, Structural)]
pub enum IpBlock {
    V4 { base: u32, prefix: u8 },
    V6 { base: u128, prefix: u8 },
}

impl IpBlock {
    /// The prefix length never exceeds the address width.
    pub open spec fn wf(self) -> bool {
        match self {
            IpBlock::V4 { prefix, .. } => prefix <= 32,
            IpBlock::V6 { prefix, .. } => prefix <= 128,
        }
    }

    /// The address width in bits.
    pub open spec fn bits(self) -> nat {
        match self {
            IpBlock::V4 { .. } => 32,
            IpBlock::V6 { .. } => 128,
        }
    }

    /// The prefix length.
    pub open spec fn prefix_len(self) -> nat {
        match self {
            IpBlock::V4 { prefix, .. } => prefix as nat,
            IpBlock::V6 { prefix, .. } => prefix as nat,
        }
    }

    /// The host-bits mask: the largest offset inside the block.
    pub open spec fn host_mask(self) -> nat {
        match self {
            IpBlock::V4 { prefix, .. } => v4_host_mask(prefix) as nat,
            IpBlock::V6 { prefix, .. } => v6_host_mask(prefix) as nat,
        }
    }

    /// How many addresses the block holds.
    pub open spec fn count(self) -> nat {
        self.host_mask() + 1
    }

    /// The lowest address of the block: the base with its host bits cleared.
    pub open spec fn first_addr(self) -> nat {
        match self {
            IpBlock::V4 { base, prefix } => (base & !v4_host_mask(prefix)) as nat,
            IpBlock::V6 { base, prefix } => (base & !v6_host_mask(prefix)) as nat,
        }
    }

    /// The numeric value of the i-th address of the block, lowest first.
    pub open spec fn addr_at(self, i: int) -> int {
        self.first_addr() + i
    }

    /// Whether a numeric address lies inside the block.
    pub open spec fn contains_addr(self, a: int) -> bool {
        self.first_addr() <= a <= self.first_addr() + self.host_mask()
    }

    /// The text of the i-th address of the block.
    pub open spec fn addr_text_at(self, i: int) -> Seq<char> {
        match self {
            IpBlock::V4 { .. } => v4_text(self.addr_at(i) as u32),
            IpBlock::V6 { .. } => v6_text(self.addr_at(i) as u128),
        }
    }

    /// The text of the base address, exactly as the block was written.
    pub open spec fn base_text(self) -> Seq<char> {
        match self {
            IpBlock::V4 { base, .. } => v4_text(base),
            IpBlock::V6 { base, .. } => v6_text(base),
        }
    }

    /// Every address of the block, lowest first, as text.
    pub open spec fn full_targets(self) -> Seq<Seq<char>> {
        Seq::new(self.count(), |i: int| self.addr_text_at(i))
    }
}

/// What ipnetwork's parser makes of one line of text: a block when the line
/// is CIDR notation or a plain address, nothing otherwise.
pub uninterp spec fn parsed_block(s: Seq<char>) -> Option<IpBlock>;

/// Relies on ipnetwork's `FromStr` for `IpNetwork`: it parses CIDR notation
/// or a plain address (a plain address gets the full-width prefix), keeps the
/// address exactly as written, and never returns a prefix longer than the
/// address width.
#[verifier::external_body]
fn parse_block(line: &str) -> (r: Option<IpBlock>)
    ensures
        r == parsed_block(line@),
        r matches Some(b) ==> b.wf(),
{
    match line.parse::<ipnetwork::IpNetwork>() {
        Ok(ipnetwork::IpNetwork::V4(n)) => Some(
            IpBlock::V4 { base: u32::from(n.ip()), prefix: n.prefix() },
        ),
        Ok(ipnetwork::IpNetwork::V6(n)) => Some(
            IpBlock::V6 { base: u128::from(n.ip()), prefix: n.prefix() },
        ),
        Err(_) => None,
    }
}

/// The lookup targets of one input line: every address of the block in full
/// mode, the block's first address alone in quick mode, and the line itself
/// verbatim when it does not parse as a block.
pub open spec fn line_targets(line: Seq<char>, quick: bool) -> Seq<Seq<char>> {
    match parsed_block(line) {
        Some(b) => if quick {
            seq![b.addr_text_at(0)]
        } else {
            b.full_targets()
        },
        None => seq![line],
    }
}


/// Every lookup target of a whole input, line by line in order: what one
/// run schedules, as a pure function of the input lines and the mode.
pub open spec fn run_targets(lines: Seq<Seq<char>>, quick: bool) -> Seq<Seq<char>>
    decreases lines.len(),
{
    if lines.len() == 0 {
        Seq::<Seq<char>>::empty()
    } else {
        line_targets(lines.first(), quick) + run_targets(lines.drop_first(), quick)
    }
}

/// A lazy walk over the targets of one input line: at most one target is
/// materialized at a time, so a wide block never sits in memory whole.
pub enum Expansion {
    /// One target: an opaque literal line, or in quick mode the block's
    /// first address.
    Single { text: String, yielded: bool },
    /// A version-four block: yields `first + next` while not done.
    Range4 { first: u32, mask: u32, next: u32, done: bool },
    /// A version-six block: yields `first + next` while not done.
    Range6 { first: u128, mask: u128, next: u128, done: bool },
}

impl Expansion {
    /// Offsets stay inside the mask and sums stay inside the address width.
    pub open spec fn wf(self) -> bool {
        match self {
            Expansion::Single { .. } => true,
            Expansion::Range4 { first, mask, next, done } => first as int + mask as int
                <= u32::MAX as int && (!done ==> next <= mask),
            Expansion::Range6 { first, mask, next, done } => first as int + mask as int
                <= u128::MAX as int && (!done ==> next <= mask),
        }
    }

    /// The targets not yet yielded, in the order they will come.
    pub open spec fn remaining(self) -> Seq<Seq<char>> {
        match self {
            Expansion::Single { text, yielded } => if yielded {
                Seq::<Seq<char>>::empty()
            } else {
                seq![text@]
            },
            Expansion::Range4 { first, mask, next, done } => if done {
                Seq::<Seq<char>>::empty()
            } else {
                Seq::new((mask - next + 1) as nat, |i: int| v4_text((first + next + i) as u32))
            },
            Expansion::Range6 { first, mask, next, done } => if done {
                Seq::<Seq<char>>::empty()
            } else {
                Seq::new((mask - next + 1) as nat, |i: int| v6_text((first + next + i) as u128))
            },
        }
    }

    /// Classifies one input line and positions the walk at its first target.
    pub fn expand(line: &str, quick: bool) -> (e: Expansion)
        ensures
            e.wf(),
            e.remaining() == line_targets(line@, quick),
    {
        match parse_block(line) {
            None => Expansion::Single { text: line.to_owned(), yielded: false },
            Some(b) => {
                if quick {
                    let text = match b {
                        IpBlock::V4 { base, prefix } => {
                            let mask: u32 = if prefix >= 32 {
                                0
                            } else {
                                u32::MAX >> (prefix as u32)
                            };
                            format_v4(base & !mask)
                        },
                        IpBlock::V6 { base, prefix } => {
                            let mask: u128 = if prefix >= 128 {
                                0
                            } else {
                                u128::MAX >> (prefix as u128)
                            };
                            format_v6(base & !mask)
                        },
                    };
                    let e = Expansion::Single { text, yielded: false };
                    proof {
                        assert(e.remaining() =~= line_targets(line@, true));
                    }
                    e
                } else {
                    match b {
                        IpBlock::V4 { base, prefix } => {
                            let mask: u32 = if prefix >= 32 {
                                0
                            } else {
                                u32::MAX >> (prefix as u32)
                            };
                            let first: u32 = base & !mask;
                            proof {
                                assert(first <= !mask && !mask == u32::MAX - mask) by (bit_vector)
                                    requires
                                        first == base & !mask,
                                ;
                            }
                            let e = Expansion::Range4 { first, mask, next: 0, done: false };
                            proof {
                                assert(e.remaining() =~= b.full_targets());
                            }
                            e
                        },
                        IpBlock::V6 { base, prefix } => {
                            let mask: u128 = if prefix >= 128 {
                                0
                            } else {
                                u128::MAX >> (prefix as u128)
                            };
                            let first: u128 = base & !mask;
                            proof {
                                assert(first <= !mask && !mask == u128::MAX - mask) by (bit_vector)
                                    requires
                                        first == base & !mask,
                                ;
                            }
                            let e = Expansion::Range6 { first, mask, next: 0, done: false };
                            proof {
                                assert(e.remaining() =~= b.full_targets());
                            }
                            e
                        },
                    }
                }
            },
        }
    }

    /// Yields the next target, or nothing once the line is exhausted.
    pub fn next_target(&mut self) -> (r: Option<String>)
        requires
            old(self).wf(),
        ensures
            final(self).wf(),
            match r {
                Some(t) => old(self).remaining().len() > 0 && t@ == old(self).remaining()[0]
                    && final(self).remaining() == old(self).remaining().drop_first(),
                None => old(self).remaining().len() == 0 && final(self).remaining().len() == 0,
            },
    {
        let ghost pre = *old(self);
        match self {
            Expansion::Single { text, yielded } => {
                if *yielded {
                    None
                } else {
                    *yielded = true;
                    Some(text.clone())
                }
            },
            Expansion::Range4 { first, mask, next, done } => {
                if *done {
                    None
                } else {
                    let t = format_v4(*first + *next);
                    if *next == *mask {
                        *done = true;
                    } else {
                        *next = *next + 1;
                    }
                    proof {
                        assert(final(self).remaining() =~= pre.remaining().drop_first());
                    }
                    Some(t)
                }
            },
            Expansion::Range6 { first, mask, next, done } => {
                if *done {
                    None
                } else {
                    let t = format_v6(*first + *next);
                    if *next == *mask {
                        *done = true;
                    } else {
                        *next = *next + 1;
                    }
                    proof {
                        assert(final(self).remaining() =~= pre.remaining().drop_first());
                    }
                    Some(t)
                }
            },
        }
    }
}

/// The host mask plus one is the block count: two to the free-bits power,
/// version four.
proof fn lemma_v4_mask_count(prefix: u8)
    requires
        prefix <= 32,
    ensures
        v4_host_mask(prefix) as nat + 1 == pow2((32 - prefix) as nat),
{
    lemma2_to64();
    if prefix < 32 {
        lemma_u32_shr_is_div(u32::MAX, prefix as u32);
        lemma_pow2_adds(prefix as nat, (32 - prefix) as nat);
        lemma_pow2_pos(prefix as nat);
        lemma_pow2_pos((32 - prefix) as nat);
        let d = pow2(prefix as nat) as int;
        let q = pow2((32 - prefix) as nat) as int - 1;
        assert(u32::MAX as int == q * d + (d - 1)) by (nonlinear_arith)
            requires
                d * (q + 1) == 0x100000000int,
        ;
        lemma_fundamental_div_mod_converse(u32::MAX as int, d, q, d - 1);
    }
}

/// The host mask plus one is the block count, version six.
proof fn lemma_v6_mask_count(prefix: u8)
    requires
        prefix <= 128,
    ensures
        v6_host_mask(prefix) as nat + 1 == pow2((128 - prefix) as nat),
{
    lemma2_to64();
    if prefix < 128 {
        lemma_u128_shr_is_div(u128::MAX, prefix as u128);
        lemma_pow2_adds(prefix as nat, (128 - prefix) as nat);
        lemma_pow2_pos(prefix as nat);
        lemma_pow2_pos((128 - prefix) as nat);
        lemma_pow2_adds(64, 64);
        assert(pow2(128) == 0x100000000000000000000000000000000nat);
        let d = pow2(prefix as nat) as int;
        let q = pow2((128 - prefix) as nat) as int - 1;
        assert(u128::MAX as int == q * d + (d - 1)) by (nonlinear_arith)
            requires
                d * (q + 1) == 0x100000000000000000000000000000000int,
        ;
        lemma_fundamental_div_mod_converse(u128::MAX as int, d, q, d - 1);
    }
}

/// Law: expanding a block in full mode yields two to the free-bits power
/// targets — the i-th being the text of the i-th address of the block — in
/// strictly ascending numeric order, and the addresses walked are exactly
/// those the block contains: each one once.
pub proof fn lemma_full_expansion(b: IpBlock)
    requires
        b.wf(),
    ensures
        b.full_targets().len() == pow2((b.bits() - b.prefix_len()) as nat),
        forall|i: int| 0 <= i < b.count() ==> #[trigger] b.full_targets()[i] == b.addr_text_at(i),
        forall|i: int, j: int| 0 <= i < j < b.count() ==> b.addr_at(i) < b.addr_at(j),
        forall|a: int| #[trigger]
            b.contains_addr(a) <==> exists|i: int| 0 <= i < b.count() && a == b.addr_at(i),
{
    match b {
        IpBlock::V4 { prefix, .. } => lemma_v4_mask_count(prefix),
        IpBlock::V6 { prefix, .. } => lemma_v6_mask_count(prefix),
    }
    assert forall|a: int| b.contains_addr(a) implies exists|i: int|
        0 <= i < b.count() && a == b.addr_at(i) by {
        assert(0 <= a - b.first_addr() < b.count() && a == b.addr_at(a - b.first_addr()));
    }
}

/// Law: a block with a full-width prefix holds a single address, and full
/// expansion yields exactly the text of that address — so a valid single
/// address expands to itself alone.
pub proof fn lemma_single_address_expansion(b: IpBlock)
    requires
        b.wf(),
        b.prefix_len() == b.bits(),
    ensures
        b.full_targets() =~= seq![b.base_text()],
{
    match b {
        IpBlock::V4 { base, .. } => {
            assert(base & !0u32 == base) by (bit_vector);
        },
        IpBlock::V6 { base, .. } => {
            assert(base & !0u128 == base) by (bit_vector);
        },
    }
}

/// Law: a line that parses as a block expands in quick mode to exactly one
/// target, the block's first address — the base with its host bits cleared.
pub proof fn lemma_quick_expansion(line: Seq<char>)
    ensures
        parsed_block(line) matches Some(b) ==> line_targets(line, true) =~= seq![
            b.addr_text_at(0),
        ],
{
}


} // verus!
