//! Splitting a buffer at the boundaries of a counting unit.

use vstd::prelude::*;
use vstd::slice::slice_subrange;

verus! {

/// The lengths of the three regions of a buffer: the bytes before the first
/// unit boundary, the whole units after it, and the bytes left over.
#[derive(Clone, Copy, Debug, PartialEq, Eq, Structural)]
pub struct AlignmentSplit {
    /// Bytes before the first boundary.
    pub prefix: usize,
    /// Whole units in the middle.
    pub units: usize,
    /// Bytes after the last whole unit.
    pub suffix: usize,
}

/// The number of bytes from `address` up to the next multiple of `unit`.
pub open spec fn gap_to_boundary(address: nat, unit: nat) -> nat {
    ((unit - address % unit) % (unit as int)) as nat
}

/// The split of `len` bytes starting at `address` for units of `unit`
/// bytes: the prefix reaches to the first boundary, or is the whole buffer
/// if that lies beyond it, and the middle takes every whole unit after it.
pub open spec fn spec_align_split(len: nat, address: nat, unit: nat) -> (nat, nat, nat) {
    let gap = gap_to_boundary(address, unit);
    let prefix = if gap <= len {
        gap
    } else {
        len
    };
    (prefix, (len - prefix) as nat / unit, (len - prefix) as nat % unit)
}

impl AlignmentSplit {
    /// The three lengths as numbers.
    pub open spec fn view(&self) -> (nat, nat, nat) {
        (self.prefix as nat, self.units as nat, self.suffix as nat)
    }

    /// The regions cover `len` bytes, the middle starts on a boundary, and
    /// neither edge holds a whole unit.
    pub open spec fn wf(&self, len: nat, address: nat, unit: nat) -> bool {
        &&& self.prefix + self.units * unit + self.suffix == len
        &&& self.prefix < unit
        &&& self.suffix < unit
        &&& self.units > 0 ==> (address + self.prefix) % (unit as int) == 0
    }
}

/// What holds of every split: it is well formed, an aligned buffer has no
/// prefix, and a buffer of at least two units less one byte has a middle.
pub proof fn lemma_align_split(len: nat, address: nat, unit: nat)
    requires
        unit > 0,
    ensures
        ({
            let (prefix, units, suffix) = spec_align_split(len, address, unit);
            &&& prefix + units * unit + suffix == len
            &&& prefix < unit
            &&& suffix < unit
            &&& units > 0 ==> (address + prefix) % unit == 0
            &&& address % unit == 0 ==> prefix == 0
            &&& len >= 2 * unit - 1 ==> units >= 1
            &&& len < unit ==> units == 0
        }),
{
    let (prefix, units, suffix) = spec_align_split(len, address, unit);
    let gap = gap_to_boundary(address, unit);
    let rest = (len - prefix) as nat;
    let u = unit as int;
    assert(rest == unit * (rest / unit) + rest % unit) by (nonlinear_arith)
        requires
            unit > 0,
    ;
    assert(units * unit == unit * (rest / unit)) by (nonlinear_arith)
        requires
            units == rest / unit,
    ;
    if units > 0 {
        assert(prefix == gap);
        let r = address as int % u;
        assert(address == u * (address as int / u) + r) by (nonlinear_arith)
            requires
                u > 0,
                r == address as int % u,
        ;
        assert(0 <= r < u) by (nonlinear_arith)
            requires
                u > 0,
                r == address as int % u,
        ;
        if r == 0 {
            assert(u % u == 0) by (nonlinear_arith)
                requires
                    u > 0,
            ;
            assert(gap == 0);
        } else {
            assert((u - r) % u == u - r) by (nonlinear_arith)
                requires
                    0 < u - r < u,
            ;
            assert(gap == unit - r);
            let q = address as int / u;
            assert(u * (q + 1) == u * q + u) by (nonlinear_arith);
            assert((address + gap) as int % u == 0) by (nonlinear_arith)
                requires
                    u > 0,
                    address + gap == u * (address as int / u + 1),
            ;
        }
    }
    if len >= 2 * unit - 1 {
        assert(rest >= unit);
        assert(rest / unit >= 1) by (nonlinear_arith)
            requires
                rest >= unit,
                unit > 0,
        ;
    }
    if len < unit {
        assert(rest / unit == 0) by (nonlinear_arith)
            requires
                rest < unit,
                unit > 0,
        ;
    }
}

/// Computes the lengths of prefix, middle and suffix for a buffer of `len`
/// bytes that starts at `address`, for units of `unit` bytes.
pub fn align_split(len: usize, address: usize, unit: usize) -> (split: AlignmentSplit)
    requires
        unit > 0,
    ensures
        split@ == spec_align_split(len as nat, address as nat, unit as nat),
        split.wf(len as nat, address as nat, unit as nat),
        address % unit == 0 ==> split.prefix == 0,
        len >= 2 * unit - 1 ==> split.units >= 1,
{
    proof {
        lemma_align_split(len as nat, address as nat, unit as nat);
    }
    let gap: usize = (unit - address % unit) % unit;
    let prefix: usize = if gap <= len {
        gap
    } else {
        len
    };
    let rest: usize = len - prefix;
    AlignmentSplit { prefix, units: rest / unit, suffix: rest % unit }
}

/// The three regions of a buffer.
pub struct Regions<'a> {
    /// The bytes before the first boundary.
    pub prefix: &'a [u8],
    /// The whole units.
    pub middle: &'a [u8],
    /// The bytes after the last whole unit.
    pub suffix: &'a [u8],
}

/// Cuts `slice`, which starts at `address`, into the bytes before the first
/// boundary of `unit`, the whole units, and the rest.
pub fn split_regions<'a>(slice: &'a [u8], address: usize, unit: usize) -> (parts: Regions<'a>)
    requires
        unit > 0,
    ensures
        parts.prefix@ + parts.middle@ + parts.suffix@ == slice@,
        ({
            let split = spec_align_split(slice@.len(), address as nat, unit as nat);
            &&& parts.prefix@.len() == split.0
            &&& parts.middle@.len() == split.1 * unit
            &&& parts.suffix@.len() == split.2
        }),
        parts.middle@.len() % (unit as nat) == 0,
{
    let len: usize = slice.len();
    let split = align_split(len, address, unit);
    proof {
        assert(split.units * unit <= len) by (nonlinear_arith)
            requires
                split.prefix + split.units * unit + split.suffix == len,
        ;
        assert((split.units * unit) % (unit as int) == 0) by (nonlinear_arith)
            requires
                unit > 0,
        ;
    }
    let cut: usize = split.prefix + split.units * unit;
    let prefix = slice_subrange(slice, 0, split.prefix);
    let middle = slice_subrange(slice, split.prefix, cut);
    let suffix = slice_subrange(slice, cut, len);
    proof {
        assert(prefix@ + middle@ + suffix@ =~= slice@);
    }
    Regions { prefix, middle, suffix }
}

/// The address at which `slice` starts, by `<[u8]>::as_ptr`. Nothing is
/// claimed of it: it differs from run to run, and the count is proved for
/// every address.
#[verifier::external_body]
pub(crate) fn start_address(slice: &[u8]) -> (address: usize) {
    slice.as_ptr() as usize
}

} // verus!
