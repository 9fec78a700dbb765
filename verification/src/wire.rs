//! The protobuf wire format: variable-length integers, field keys and the extent of fields that a
//! reader does not know.

use vstd::prelude::*;
use vstd::slice::slice_subrange;

verus! {

/// The wire type of a variable-length integer.
pub const WIRE_VARINT: u32 = 0;

/// The wire type of eight fixed bytes.
pub const WIRE_FIXED64: u32 = 1;

/// The wire type of a length and that many bytes.
pub const WIRE_LENGTH: u32 = 2;

/// The wire type that opens a group.
pub const WIRE_GROUP_START: u32 = 3;

/// The wire type that closes a group.
pub const WIRE_GROUP_END: u32 = 4;

/// The wire type of four fixed bytes.
pub const WIRE_FIXED32: u32 = 5;

/// How deeply messages and groups may nest.
pub const RECURSION_LIMIT: u32 = 100;

/// The base-128 encoding of `n`, least significant digit first; every byte but the last has its
/// top bit set.
pub open spec fn varint(n: nat) -> Seq<u8>
    decreases n,
{
    if n < 128 {
        seq![n as u8]
    } else {
        seq![(128 + n % 128) as u8] + varint(n / 128)
    }
}

/// One more than the largest value that fits in `room` bytes of an integer whose tenth byte holds
/// a single bit.
pub open spec fn varint_cap(room: nat) -> nat
    decreases room,
{
    if room <= 1 {
        2
    } else {
        128 * varint_cap((room - 1) as nat)
    }
}

/// The integer that `s` starts with, read from at most `room` bytes, and the number of bytes that
/// it takes.
pub open spec fn varint_within(s: Seq<u8>, room: nat) -> Option<(nat, nat)>
    decreases room,
{
    if room == 0 || s.len() == 0 {
        None
    } else if s[0] < 128 {
        if room == 1 && s[0] >= 2 {
            None
        } else {
            Some((s[0] as nat, 1))
        }
    } else {
        match varint_within(s.skip(1), (room - 1) as nat) {
            Some((v, n)) => Some(((s[0] - 128) as nat + 128 * v, n + 1)),
            None => None,
        }
    }
}

/// The 64-bit integer that `s` starts with and the number of bytes that it takes.
pub open spec fn varint_at(s: Seq<u8>) -> Option<(nat, nat)> {
    varint_within(s, 10)
}

/// The key of a field: its tag and its wire type.
pub open spec fn key(tag: nat, wire: nat) -> Seq<u8> {
    varint(tag * 8 + wire)
}

/// The key that `s` starts with: tag, wire type and the number of bytes.
pub open spec fn key_at(s: Seq<u8>) -> Option<(nat, nat, nat)> {
    match varint_at(s) {
        None => None,
        Some((k, n)) => if k > u32::MAX || k % 8 > 5 || k / 8 == 0 {
            None
        } else {
            Some((k / 8, k % 8, n))
        },
    }
}

/// The number of bytes of the value of an unknown field that `s` starts with.
pub open spec fn field_extent(wire: nat, tag: nat, s: Seq<u8>, depth: nat) -> Option<nat>
    decreases depth, s.len(), 1nat,
{
    if depth == 0 {
        None
    } else if wire == WIRE_VARINT {
        match varint_at(s) {
            Some((_, n)) => Some(n),
            None => None,
        }
    } else if wire == WIRE_FIXED64 {
        if s.len() >= 8 {
            Some(8)
        } else {
            None
        }
    } else if wire == WIRE_LENGTH {
        match varint_at(s) {
            Some((len, n)) => if n + len <= s.len() {
                Some(n + len)
            } else {
                None
            },
            None => None,
        }
    } else if wire == WIRE_GROUP_START {
        group_extent(tag, s, depth)
    } else if wire == WIRE_FIXED32 {
        if s.len() >= 4 {
            Some(4)
        } else {
            None
        }
    } else {
        None
    }
}

/// The number of bytes up to and with the key that closes the group `tag`.
pub open spec fn group_extent(tag: nat, s: Seq<u8>, depth: nat) -> Option<nat>
    decreases depth, s.len(), 0nat,
{
    proof {
        lemma_key_extent(s);
    }
    match key_at(s) {
        None => None,
        Some((t, w, n)) => if w == WIRE_GROUP_END {
            if t == tag {
                Some(n)
            } else {
                None
            }
        } else if depth == 0 {
            None
        } else {
            match field_extent(w, t, s.skip(n as int), (depth - 1) as nat) {
                None => None,
                Some(m) => if n + m > s.len() {
                    None
                } else {
                    match group_extent(tag, s.skip((n + m) as int), depth) {
                        None => None,
                        Some(k) => Some(n + m + k),
                    }
                },
            }
        },
    }
}

/// An extent that starts `by` bytes further on.
pub open spec fn shifted(extent: Option<nat>, by: nat) -> Option<nat> {
    match extent {
        Some(n) => Some(by + n),
        None => None,
    }
}

/// An integer takes at least one byte, no more than there are, and stays under its cap.
pub proof fn lemma_varint_extent(s: Seq<u8>, room: nat)
    ensures
        varint_within(s, room) matches Some((v, n)) ==> 1 <= n <= s.len() && v < varint_cap(room),
    decreases room,
{
    if room > 0 && s.len() > 0 {
        lemma_cap(room);
        if s[0] >= 128 {
            lemma_varint_extent(s.skip(1), (room - 1) as nat);
        }
    }
}

proof fn lemma_cap(room: nat)
    ensures
        varint_cap(room) >= 2,
        room >= 2 ==> varint_cap(room) >= 128,
    decreases room,
{
    if room >= 2 {
        lemma_cap((room - 1) as nat);
    }
}

/// The cap of ten bytes is two to the power of sixty-four.
pub proof fn lemma_cap_ten()
    ensures
        varint_cap(10) == 0x1_0000_0000_0000_0000,
{
    reveal_with_fuel(varint_cap, 11);
}

/// A key takes at least one byte and no more than there are.
pub proof fn lemma_key_extent(s: Seq<u8>)
    ensures
        key_at(s) matches Some((t, w, n)) ==> 1 <= n <= s.len() && 1 <= t <= 0x1fff_ffff && w <= 5,
{
    lemma_varint_extent(s, 10);
}

/// The extent of a field stays within the bytes.
pub proof fn lemma_field_extent(wire: nat, tag: nat, s: Seq<u8>, depth: nat)
    ensures
        field_extent(wire, tag, s, depth) matches Some(n) ==> n <= s.len(),
    decreases depth, s.len(), 1nat,
{
    lemma_varint_extent(s, 10);
    if depth > 0 && wire == WIRE_GROUP_START {
        lemma_group_extent(tag, s, depth);
    }
}

/// The extent of a group stays within the bytes.
pub proof fn lemma_group_extent(tag: nat, s: Seq<u8>, depth: nat)
    ensures
        group_extent(tag, s, depth) matches Some(n) ==> n <= s.len(),
    decreases depth, s.len(), 0nat,
{
    lemma_key_extent(s);
    if let Some((t, w, n)) = key_at(s) {
        if w != WIRE_GROUP_END && depth > 0 {
            if let Some(m) = field_extent(w, t, s.skip(n as int), (depth - 1) as nat) {
                if n + m <= s.len() {
                    lemma_group_extent(tag, s.skip((n + m) as int), depth);
                }
            }
        }
    }
}

/// Reading an integer gives back what was written, whatever follows.
pub proof fn lemma_varint_inverse(n: nat, rest: Seq<u8>, room: nat)
    requires
        1 <= room,
        n < varint_cap(room),
    ensures
        varint_within(varint(n) + rest, room) == Some((n, varint(n).len())),
        1 <= varint(n).len() <= room,
    decreases room,
{
    let s = varint(n) + rest;
    if n >= 128 {
        lemma_cap(room);
        assert(varint(n) =~= seq![(128 + n % 128) as u8] + varint(n / 128));
        assert(s.skip(1) =~= varint(n / 128) + rest);
        assert(s[0] == 128 + n % 128);
        lemma_varint_inverse(n / 128, rest, (room - 1) as nat);
        assert(n % 128 + 128 * (n / 128) == n);
    } else {
        assert(s[0] == n);
    }
}

/// Reading a key gives back its tag and wire type.
pub proof fn lemma_key_inverse(tag: nat, wire: nat, rest: Seq<u8>)
    requires
        1 <= tag <= 0x1fff_ffff,
        wire <= 5,
    ensures
        key_at(key(tag, wire) + rest) == Some((tag, wire, key(tag, wire).len())),
        1 <= key(tag, wire).len() <= 10,
{
    lemma_cap_ten();
    lemma_varint_inverse(tag * 8 + wire, rest, 10);
    assert((tag * 8 + wire) / 8 == tag);
    assert((tag * 8 + wire) % 8 == wire);
}

/// Appends the encoding of `n`.
pub fn write_varint(out: &mut Vec<u8>, n: u64)
    ensures
        final(out)@ == old(out)@ + varint(n as nat),
{
    let mut rest: u64 = n;
    while rest >= 128
        invariant
            out@ + varint(rest as nat) == old(out)@ + varint(n as nat),
        decreases rest,
    {
        let ghost before = out@;
        out.push((128 + rest % 128) as u8);
        assert(before + varint(rest as nat) =~= out@ + varint(rest as nat / 128));
        rest = rest / 128;
    }
    let ghost before = out@;
    out.push(rest as u8);
    assert(before + varint(rest as nat) =~= out@);
}

/// Appends the key of the field `tag` with wire type `wire`.
pub fn write_key(out: &mut Vec<u8>, tag: u32, wire: u32)
    requires
        tag <= 0x1fff_ffff,
        wire <= 5,
    ensures
        final(out)@ == old(out)@ + key(tag as nat, wire as nat),
{
    write_varint(out, tag as u64 * 8 + wire as u64);
}

fn read_varint_within(s: &[u8], room: u32) -> (r: Option<(u64, usize)>)
    requires
        room <= 10,
    ensures
        r matches Some((v, n)) ==> varint_within(s@, room as nat) == Some((v as nat, n as nat)),
        r is None ==> varint_within(s@, room as nat) is None,
    decreases room,
{
    if room == 0 || s.len() == 0 {
        return None;
    }
    proof {
        lemma_varint_extent(s@, room as nat);
        lemma_cap_within(room as nat);
    }
    let b: u8 = s[0];
    if b < 128 {
        if room == 1 && b >= 2 {
            None
        } else {
            Some((b as u64, 1))
        }
    } else {
        match read_varint_within(slice_subrange(s, 1, s.len()), room - 1) {
            Some((v, n)) => Some(((b - 128) as u64 + 128 * v, n + 1)),
            None => None,
        }
    }
}

proof fn lemma_cap_within(room: nat)
    requires
        room <= 10,
    ensures
        varint_cap(room) <= 0x1_0000_0000_0000_0000,
{
    reveal_with_fuel(varint_cap, 11);
}

/// Reads the integer that `s` starts with: its value and the number of bytes that it takes.
pub fn read_varint(s: &[u8]) -> (r: Option<(u64, usize)>)
    ensures
        r matches Some((v, n)) ==> varint_at(s@) == Some((v as nat, n as nat)) && 1 <= n <= s@.len(),
        r is None ==> varint_at(s@) is None,
{
    proof {
        lemma_varint_extent(s@, 10);
    }
    read_varint_within(s, 10)
}

/// Reads the key that `s` starts with: tag, wire type and the number of bytes.
pub fn read_key(s: &[u8]) -> (r: Option<(u32, u32, usize)>)
    ensures
        r matches Some((t, w, n)) ==> key_at(s@) == Some((t as nat, w as nat, n as nat)) && 1 <= n
            <= s@.len() && w <= 5,
        r is None ==> key_at(s@) is None,
{
    match read_varint(s) {
        None => None,
        Some((k, n)) => {
            if k > u32::MAX as u64 || k % 8 > 5 || k / 8 == 0 {
                None
            } else {
                Some(((k / 8) as u32, (k % 8) as u32, n))
            }
        },
    }
}

/// Measures the value of an unknown field that `s` starts with.
pub fn skip_field(wire: u32, tag: u32, s: &[u8], depth: u32) -> (r: Option<usize>)
    ensures
        r matches Some(n) ==> field_extent(wire as nat, tag as nat, s@, depth as nat) == Some(
            n as nat,
        ) && n <= s@.len(),
        r is None ==> field_extent(wire as nat, tag as nat, s@, depth as nat) is None,
    decreases depth, s@.len(), 1nat,
{
    proof {
        lemma_field_extent(wire as nat, tag as nat, s@, depth as nat);
    }
    if depth == 0 {
        None
    } else if wire == WIRE_VARINT {
        match read_varint(s) {
            Some((_, n)) => Some(n),
            None => None,
        }
    } else if wire == WIRE_FIXED64 {
        if s.len() >= 8 {
            Some(8)
        } else {
            None
        }
    } else if wire == WIRE_LENGTH {
        match read_varint(s) {
            Some((len, n)) => {
                if len <= (s.len() - n) as u64 {
                    Some(n + len as usize)
                } else {
                    None
                }
            },
            None => None,
        }
    } else if wire == WIRE_GROUP_START {
        skip_group(tag, s, depth)
    } else if wire == WIRE_FIXED32 {
        if s.len() >= 4 {
            Some(4)
        } else {
            None
        }
    } else {
        None
    }
}

fn skip_group(tag: u32, s: &[u8], depth: u32) -> (r: Option<usize>)
    requires
        depth > 0,
    ensures
        r matches Some(n) ==> group_extent(tag as nat, s@, depth as nat) == Some(n as nat) && n
            <= s@.len(),
        r is None ==> group_extent(tag as nat, s@, depth as nat) is None,
    decreases depth, s@.len(), 0nat,
{
    proof {
        lemma_group_extent(tag as nat, s@, depth as nat);
        assert(s@.skip(0) =~= s@);
    }
    let mut pos: usize = 0;
    loop
        invariant
            depth > 0,
            pos <= s@.len(),
            group_extent(tag as nat, s@, depth as nat) == shifted(
                group_extent(tag as nat, s@.skip(pos as int), depth as nat),
                pos as nat,
            ),
            group_extent(tag as nat, s@, depth as nat) matches Some(n) ==> n <= s@.len(),
        decreases s@.len() - pos,
    {
        let rest = slice_subrange(s, pos, s.len());
        match read_key(rest) {
            None => {
                return None;
            },
            Some((t, w, n)) => {
                if w == WIRE_GROUP_END {
                    return if t == tag {
                        Some(pos + n)
                    } else {
                        None
                    };
                }
                let inner = slice_subrange(rest, n, rest.len());
                match skip_field(w, t, inner, depth - 1) {
                    None => {
                        return None;
                    },
                    Some(m) => {
                        assert(rest@.skip((n + m) as int) =~= s@.skip((pos + n + m) as int));
                        pos = pos + n + m;
                    },
                }
            },
        }
    }
}

} // verus!
