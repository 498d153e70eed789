use vstd::prelude::*;

verus! {

/// Bit `i` of `v`, as 0 or 1.
pub open spec fn bit(v: u64, i: u64) -> u64 {
    (v >> i) & 1
}

/// The Z-order (Morton) code of a quantized point: bit `i` of `x` lands at
/// position `2i + 1`, bit `i` of `y` at position `2i`, for the low 16 bits;
/// every higher bit is zero.
pub open spec fn is_morton_of(z: u64, x: u64, y: u64) -> bool {
    &&& forall|i: u64| #![trigger bit(x, i)] i < 16 ==> bit(z, (2 * i + 1) as u64) == bit(x, i)
    &&& forall|i: u64| #![trigger bit(y, i)] i < 16 ==> bit(z, (2 * i) as u64) == bit(y, i)
    &&& z >> 32u64 == 0
}

/// Interleave the low 16 bits of `xi` and `yi` into a Morton code.
pub fn morton_code(xi: u64, yi: u64) -> (z: u64)
    ensures
        is_morton_of(z, xi, yi),
{
    let mut z: u64 = 0;
    let mut i: u64 = 0;
    assert(0u64 >> 0u64 == 0) by (bit_vector);
    while i < 16
        invariant
            i <= 16,
            forall|j: u64| #![trigger bit(xi, j)] j < i ==> bit(z, (2 * j + 1) as u64) == bit(xi, j),
            forall|j: u64| #![trigger bit(yi, j)] j < i ==> bit(z, (2 * j) as u64) == bit(yi, j),
            z >> ((2 * i) as u64) == 0,
        decreases 16 - i,
    {
        let a = (xi >> i) & 1;
        let b = (yi >> i) & 1;
        assert(a <= 1 && b <= 1) by (bit_vector)
            requires a == (xi >> i) & 1, b == (yi >> i) & 1;
        let nz = z | (a << (2 * i + 1)) | (b << (2 * i));
        assert forall|j: u64| j < i + 1 implies #[trigger] bit(xi, j) == bit(nz, (2 * j + 1) as u64) by {
            if j < i {
                assert(bit(xi, j) == bit(z, (2 * j + 1) as u64));
                assert((nz >> ((2 * j + 1) as u64)) & 1 == (z >> ((2 * j + 1) as u64)) & 1)
                    by (bit_vector)
                    requires j < i, i < 16, a <= 1, b <= 1, nz == z | (a << (2 * i + 1)) | (b << (2 * i));
            } else {
                assert((nz >> ((2 * j + 1) as u64)) & 1 == a)
                    by (bit_vector)
                    requires j == i, i < 16, a <= 1, b <= 1, z >> ((2 * i) as u64) == 0,
                        nz == z | (a << (2 * i + 1)) | (b << (2 * i));
            }
        }
        assert forall|j: u64| j < i + 1 implies #[trigger] bit(yi, j) == bit(nz, (2 * j) as u64) by {
            if j < i {
                assert(bit(yi, j) == bit(z, (2 * j) as u64));
                assert((nz >> ((2 * j) as u64)) & 1 == (z >> ((2 * j) as u64)) & 1)
                    by (bit_vector)
                    requires j < i, i < 16, a <= 1, b <= 1, nz == z | (a << (2 * i + 1)) | (b << (2 * i));
            } else {
                assert((nz >> ((2 * j) as u64)) & 1 == b)
                    by (bit_vector)
                    requires j == i, i < 16, a <= 1, b <= 1, z >> ((2 * i) as u64) == 0,
                        nz == z | (a << (2 * i + 1)) | (b << (2 * i));
            }
        }
        assert(nz >> ((2 * (i + 1)) as u64) == 0) by (bit_vector)
            requires i < 16, a <= 1, b <= 1, z >> ((2 * i) as u64) == 0,
                nz == z | (a << (2 * i + 1)) | (b << (2 * i));
        z = nz;
        i = i + 1;
    }
    z
}

} // verus!
