//! Packed RGBA color and the colormap selector.
use vstd::prelude::*;
use vstd::std_specs::convert::FromSpecImpl;

verus! {

/// The 32-bit word `0xRRGGBBAA` that four 8-bit channels pack into.
pub open spec fn pack(r: u8, g: u8, b: u8, a: u8) -> u32 {
    (r as u32 * 0x100_0000 + g as u32 * 0x1_0000 + b as u32 * 0x100 + a as u32) as u32
}

/// The `i`-th byte of `v`, counting from the most significant one.
pub open spec fn byte_be(v: u32, i: int) -> u8 {
    if i == 0 {
        (v / 0x100_0000) as u8
    } else if i == 1 {
        (v / 0x1_0000 % 0x100) as u8
    } else if i == 2 {
        (v / 0x100 % 0x100) as u8
    } else {
        (v % 0x100) as u8
    }
}

/// The channels of a packed word, red first.
pub open spec fn unpack(v: u32) -> Seq<u8> {
    seq![byte_be(v, 0), byte_be(v, 1), byte_be(v, 2), byte_be(v, 3)]
}

/// A packed, non-premultiplied sRGB color: `0xRRGGBBAA`.
#[derive(Clone, Copy, PartialEq, Eq, Structural, Hash, Debug)]
pub struct Color(pub u32);

impl Color {
    /// Fully transparent.
    pub fn transparent() -> (c: Color)
        ensures
            c.0 == 0x0000_0000,
    {
        Color(0x0000_0000)
    }
    /// Opaque black.
    pub fn black() -> (c: Color)
        ensures
            c.0 == 0x0000_00FF,
    {
        Color(0x0000_00FF)
    }
    /// Opaque white.
    pub fn white() -> (c: Color)
        ensures
            c.0 == 0xFFFF_FFFF,
    {
        Color(0xFFFF_FFFF)
    }
    /// Opaque red.
    pub fn red() -> (c: Color)
        ensures
            c.0 == 0xFF00_00FF,
    {
        Color(0xFF00_00FF)
    }
    /// Opaque green.
    pub fn green() -> (c: Color)
        ensures
            c.0 == 0x00FF_00FF,
    {
        Color(0x00FF_00FF)
    }
    /// Opaque blue.
    pub fn blue() -> (c: Color)
        ensures
            c.0 == 0x0000_FFFF,
    {
        Color(0x0000_FFFF)
    }
    /// Opaque yellow.
    pub fn yellow() -> (c: Color)
        ensures
            c.0 == 0xFFFF_00FF,
    {
        Color(0xFFFF_00FF)
    }
    /// Opaque magenta.
    pub fn magenta() -> (c: Color)
        ensures
            c.0 == 0xFF00_FFFF,
    {
        Color(0xFF00_FFFF)
    }
    /// Opaque cyan.
    pub fn cyan() -> (c: Color)
        ensures
            c.0 == 0x00FF_FFFF,
    {
        Color(0x00FF_FFFF)
    }
    /// Opaque mid grey.
    pub fn gray() -> (c: Color)
        ensures
            c.0 == 0x8080_80FF,
    {
        Color(0x8080_80FF)
    }

    /// Build an opaque color from 8-bit channels.
    pub fn rgb(r: u8, g: u8, b: u8) -> (c: Color)
        ensures
            c.0 == pack(r, g, b, 255),
    {
        Color::rgba(r, g, b, 255)
    }

    /// Build a color from 8-bit channels including alpha.
    pub fn rgba(r: u8, g: u8, b: u8, a: u8) -> (c: Color)
        ensures
            c.0 == pack(r, g, b, a),
    {
        let v: u32 = ((r as u32) << 24u32) | ((g as u32) << 16u32) | ((b as u32) << 8u32) | (a as u32);
        assert(v == pack(r, g, b, a)) by (bit_vector)
            requires
                v == ((r as u32) << 24u32) | ((g as u32) << 16u32) | ((b as u32) << 8u32) | (a as u32),
        ;
        Color(v)
    }

    /// Unpack to `[r, g, b, a]`, the byte order the vertex format expects.
    pub fn channels(self) -> (out: [u8; 4])
        ensures
            out@ == unpack(self.0),
    {
        let v = self.0;
        let r = (v >> 24u32) as u8;
        let g = ((v >> 16u32) & 0xFF) as u8;
        let b = ((v >> 8u32) & 0xFF) as u8;
        let a = (v & 0xFF) as u8;
        assert(r == byte_be(v, 0) && g == byte_be(v, 1) && b == byte_be(v, 2) && a == byte_be(v, 3)) by (bit_vector)
            requires
                r == (v >> 24u32) as u8,
                g == ((v >> 16u32) & 0xFF) as u8,
                b == ((v >> 8u32) & 0xFF) as u8,
                a == (v & 0xFF) as u8,
        ;
        let out = [r, g, b, a];
        assert(out@ =~= unpack(v));
        out
    }
}

/// The packed word is `0xRRGGBBAA`: red is its most significant byte, then
/// green, then blue, and alpha its least significant.
pub proof fn lemma_pack_is_rgba_order(r: u8, g: u8, b: u8, a: u8)
    ensures
        pack(r, g, b, a) as int == r as int * 0x100_0000 + g as int * 0x1_0000 + b as int * 0x100
            + a as int,
        pack(r, g, b, a) / 0x100_0000 == r,
        pack(r, g, b, a) % 0x100 == a,
{
    let v = r as int * 0x100_0000 + g as int * 0x1_0000 + b as int * 0x100 + a as int;
    assert(0 <= v <= 0xFFFF_FFFF) by (nonlinear_arith)
        requires
            v == r as int * 0x100_0000 + g as int * 0x1_0000 + b as int * 0x100 + a as int,
            r <= 255,
            g <= 255,
            b <= 255,
            a <= 255,
    ;
    assert(v / 0x100_0000 == r && v % 0x100 == a) by (nonlinear_arith)
        requires
            v == r as int * 0x100_0000 + g as int * 0x1_0000 + b as int * 0x100 + a as int,
            r <= 255,
            g <= 255,
            b <= 255,
            a <= 255,
    ;
}

/// Packing then unpacking gives the channels back, in order.
pub proof fn lemma_unpack_pack(r: u8, g: u8, b: u8, a: u8)
    ensures
        unpack(pack(r, g, b, a)) == seq![r, g, b, a],
{
    let v = pack(r, g, b, a);
    assert(byte_be(v, 0) == r && byte_be(v, 1) == g && byte_be(v, 2) == b && byte_be(v, 3) == a) by (nonlinear_arith)
        requires
            v == r as u32 * 0x100_0000 + g as u32 * 0x1_0000 + b as u32 * 0x100 + a as u32,
    {
        assert(v / 0x100_0000 == r);
        assert(v / 0x1_0000 == r as u32 * 0x100 + g as u32);
        assert(v / 0x100 == r as u32 * 0x1_0000 + g as u32 * 0x100 + b as u32);
    }
    assert(unpack(v) =~= seq![r, g, b, a]);
}

impl From<u32> for Color {
    fn from(v: u32) -> (c: Color) {
        Color(v)
    }
}

impl FromSpecImpl<u32> for Color {
    open spec fn obeys_from_spec() -> bool {
        true
    }

    open spec fn from_spec(v: u32) -> Color {
        Color(v)
    }
}

impl From<[u8; 4]> for Color {
    fn from(v: [u8; 4]) -> (c: Color) {
        Color::rgba(v[0], v[1], v[2], v[3])
    }
}

impl FromSpecImpl<[u8; 4]> for Color {
    open spec fn obeys_from_spec() -> bool {
        true
    }

    open spec fn from_spec(v: [u8; 4]) -> Color {
        Color(pack(v[0], v[1], v[2], v[3]))
    }
}

/// Unpacking then packing gives the word back.
pub proof fn lemma_pack_unpack(v: u32)
    ensures
        pack(byte_be(v, 0), byte_be(v, 1), byte_be(v, 2), byte_be(v, 3)) == v,
{
    let r = byte_be(v, 0);
    let g = byte_be(v, 1);
    let b = byte_be(v, 2);
    let a = byte_be(v, 3);
    assert(r as u32 * 0x100_0000 + g as u32 * 0x1_0000 + b as u32 * 0x100 + a as u32 == v) by (nonlinear_arith)
        requires
            r == (v / 0x100_0000) as u8,
            g == (v / 0x1_0000 % 0x100) as u8,
            b == (v / 0x100 % 0x100) as u8,
            a == (v % 0x100) as u8,
            v <= 0xFFFF_FFFF,
    {
        assert(v / 0x100_0000 < 0x100);
        assert(r == v / 0x100_0000);
        assert(g == v / 0x1_0000 % 0x100);
        assert(b == v / 0x100 % 0x100);
        assert(a == v % 0x100);
    }
}

/// The upper-case hexadecimal digit for `d`.
pub open spec fn hex_digit(d: nat) -> char {
    if d < 10 {
        (('0' as u32) + d) as char
    } else {
        (('A' as u32) + d - 10) as char
    }
}

/// Nibble `i` of `v`, counting from the most significant of eight.
pub open spec fn nibble(v: u32, i: nat) -> nat {
    ((v >> ((28 - 4 * i) as u32)) & 0xF) as nat
}

/// `v` as eight upper-case hexadecimal digits, most significant first.
pub open spec fn hex8(v: u32) -> Seq<char> {
    Seq::new(8, |i: int| hex_digit(nibble(v, i as nat)))
}

/// The number an upper-case hexadecimal digit stands for.
pub open spec fn hex_char_value(c: char) -> int {
    if '0' <= c <= '9' {
        c as int - '0' as int
    } else {
        c as int - 'A' as int + 10
    }
}

/// The weight of digit `i` of eight, most significant first: `16^(7 - i)`.
pub open spec fn hex_place(i: int) -> int {
    if i == 0 {
        0x1000_0000
    } else if i == 1 {
        0x100_0000
    } else if i == 2 {
        0x10_0000
    } else if i == 3 {
        0x1_0000
    } else if i == 4 {
        0x1000
    } else if i == 5 {
        0x100
    } else if i == 6 {
        0x10
    } else {
        1
    }
}

/// `hex8(v)` writes `v` in base sixteen, most significant digit first: its
/// eight characters are digits `0`-`9` or `A`-`F`, and digit `i` stands for
/// `v / 16^(7 - i) % 16`.
pub proof fn lemma_hex8_writes_v(v: u32)
    ensures
        hex8(v).len() == 8,
        forall|i: int|
            0 <= i < 8 ==> {
                &&& ('0' <= #[trigger] hex8(v)[i] <= '9' || 'A' <= hex8(v)[i] <= 'F')
                &&& hex_char_value(hex8(v)[i]) == v as int / hex_place(i) % 16
            },
{
    assert((v >> 28u32) & 0xF == v / 0x1000_0000 % 16) by (bit_vector);
    assert((v >> 24u32) & 0xF == v / 0x100_0000 % 16) by (bit_vector);
    assert((v >> 20u32) & 0xF == v / 0x10_0000 % 16) by (bit_vector);
    assert((v >> 16u32) & 0xF == v / 0x1_0000 % 16) by (bit_vector);
    assert((v >> 12u32) & 0xF == v / 0x1000 % 16) by (bit_vector);
    assert((v >> 8u32) & 0xF == v / 0x100 % 16) by (bit_vector);
    assert((v >> 4u32) & 0xF == v / 0x10 % 16) by (bit_vector);
    assert((v >> 0u32) & 0xF == v % 16) by (bit_vector);
    assert forall|i: int| 0 <= i < 8 implies {
        &&& ('0' <= #[trigger] hex8(v)[i] <= '9' || 'A' <= hex8(v)[i] <= 'F')
        &&& hex_char_value(hex8(v)[i]) == v as int / hex_place(i) % 16
    } by {
        let d = nibble(v, i as nat);
        assert(d == v as int / hex_place(i) % 16);
        assert(d < 16);
        assert(hex8(v)[i] == hex_digit(d));
    }
}

fn hex_str(d: u32) -> (s: &'static str)
    requires
        d < 16,
    ensures
        s@ == seq![hex_digit(d as nat)],
{
    proof {
        reveal_strlit("0");
        reveal_strlit("1");
        reveal_strlit("2");
        reveal_strlit("3");
        reveal_strlit("4");
        reveal_strlit("5");
        reveal_strlit("6");
        reveal_strlit("7");
        reveal_strlit("8");
        reveal_strlit("9");
        reveal_strlit("A");
        reveal_strlit("B");
        reveal_strlit("C");
        reveal_strlit("D");
        reveal_strlit("E");
        reveal_strlit("F");
    }
    match d {
        0 => "0",
        1 => "1",
        2 => "2",
        3 => "3",
        4 => "4",
        5 => "5",
        6 => "6",
        7 => "7",
        8 => "8",
        9 => "9",
        10 => "A",
        11 => "B",
        12 => "C",
        13 => "D",
        14 => "E",
        _ => "F",
    }
}

impl Color {
    /// The color as `#RRGGBBAA`, for debugging output.
    pub fn hex(self) -> (s: String)
        ensures
            s@ == seq!['#'] + hex8(self.0),
    {
        let mut s = String::from_str("#");
        proof {
            reveal_strlit("#");
        }
        let mut i: u32 = 0;
        let mut shift: u32 = 28;
        while i < 8
            invariant
                i <= 8,
                i < 8 ==> shift == 28 - 4 * i,
                s@ == seq!['#'] + hex8(self.0).subrange(0, i as int),
            decreases 8 - i,
        {
            let v = self.0;
            let d = (v >> shift) & 0xF;
            assert(d < 16) by (bit_vector)
                requires
                    d == (v >> shift) & 0xF,
            ;
            s.append(hex_str(d));
            assert(hex8(self.0).subrange(0, i + 1) =~= hex8(self.0).subrange(0, i as int).push(
                hex_digit(nibble(self.0, i as nat)),
            ));
            i = i + 1;
            if i < 8 {
                shift = shift - 4;
            }
        }
        assert(hex8(self.0).subrange(0, 8) =~= hex8(self.0));
        s
    }
}

/// Which perceptual ramp a colormap maps scalars through.
#[derive(Clone, Copy, Debug, PartialEq, Eq, Hash, Structural)]
#[non_exhaustive]
pub enum ColorMap {
    /// Google's Turbo: rainbow-like but perceptually ordered. Good default for depth.
    Turbo,
    /// Matplotlib's Viridis: perceptually uniform, colorblind-safe.
    Viridis,
    /// Matplotlib's Magma: perceptually uniform, dark to bright.
    Magma,
    /// Linear greyscale.
    Grey,
    /// Blue-white-red, for signed quantities read around the middle of the range.
    Coolwarm,
}

impl Default for ColorMap {
    fn default() -> (m: ColorMap)
        ensures
            m == ColorMap::Turbo,
    {
        ColorMap::Turbo
    }
}

/// `c` with ASCII upper case folded to lower case.
pub open spec fn ascii_lower(c: char) -> char {
    if 'A' <= c <= 'Z' {
        ((c as u32) + 32) as char
    } else {
        c
    }
}

/// `s` with ASCII upper case folded to lower case.
pub open spec fn fold_case(s: Seq<char>) -> Seq<char> {
    s.map_values(|c: char| ascii_lower(c))
}

/// The ramp a name picks, case-insensitively; `grey` and `gray` both name
/// the greyscale ramp.
pub open spec fn ramp_named(name: Seq<char>) -> Option<ColorMap> {
    let n = fold_case(name);
    if n == "turbo"@ {
        Some(ColorMap::Turbo)
    } else if n == "viridis"@ {
        Some(ColorMap::Viridis)
    } else if n == "magma"@ {
        Some(ColorMap::Magma)
    } else if n == "grey"@ || n == "gray"@ {
        Some(ColorMap::Grey)
    } else if n == "coolwarm"@ {
        Some(ColorMap::Coolwarm)
    } else {
        None
    }
}

fn lower_char(c: char) -> (r: char)
    ensures
        r == ascii_lower(c),
{
    if 'A' <= c && c <= 'Z' {
        let u = ((c as u32) + 32) as u8;
        u as char
    } else {
        c
    }
}

fn names_match(name: &str, word: &str) -> (b: bool)
    ensures
        b == (fold_case(name@) == word@),
{
    let n = name.unicode_len();
    let m = word.unicode_len();
    if n != m {
        proof {
            assert(fold_case(name@).len() == name@.len());
        }
        return false;
    }
    let mut i: usize = 0;
    while i < n
        invariant
            n == name@.len(),
            m == word@.len(),
            n == m,
            i <= n,
            forall|j: int| 0 <= j < i ==> ascii_lower(name@[j]) == word@[j],
        decreases n - i,
    {
        if lower_char(name.get_char(i)) != word.get_char(i) {
            proof {
                assert(fold_case(name@)[i as int] != word@[i as int]);
            }
            return false;
        }
        i = i + 1;
    }
    assert(fold_case(name@) =~= word@);
    true
}

impl ColorMap {
    /// The ramp a name picks, case-insensitively: `turbo`, `viridis`,
    /// `magma`, `grey` or `gray`, or `coolwarm`.
    pub fn from_name(name: &str) -> (m: Option<ColorMap>)
        ensures
            m == ramp_named(name@),
    {
        if names_match(name, "turbo") {
            Some(ColorMap::Turbo)
        } else if names_match(name, "viridis") {
            Some(ColorMap::Viridis)
        } else if names_match(name, "magma") {
            Some(ColorMap::Magma)
        } else if names_match(name, "grey") || names_match(name, "gray") {
            Some(ColorMap::Grey)
        } else if names_match(name, "coolwarm") {
            Some(ColorMap::Coolwarm)
        } else {
            None
        }
    }
}

/// Fill `out` with `f` of each value, pairwise: the shorter slice wins, extra
/// elements of `out` are untouched and values past its end are ignored. This
/// is the shape of a colormap into a caller-owned buffer, which allocates
/// nothing and so serves every frame.
pub fn map_into<A, B, F: Fn(&A) -> B>(values: &[A], out: &mut [B], f: &F)
    requires
        forall|i: int| 0 <= i < values@.len() ==> call_requires(*f, (&values@[i],)),
    ensures
        final(out)@.len() == old(out)@.len(),
        forall|i: int|
            0 <= i < final(out)@.len() && i < values@.len() ==> call_ensures(
                *f,
                (&values@[i],),
                #[trigger] final(out)@[i],
            ),
        forall|i: int| values@.len() <= i < final(out)@.len() ==> #[trigger] final(out)@[i] == old(out)@[i],
{
    let n = if values.len() < out.len() {
        values.len()
    } else {
        out.len()
    };
    let mut i: usize = 0;
    while i < n
        invariant
            n <= values@.len(),
            n <= out@.len(),
            n == values@.len() || n == out@.len(),
            i <= n,
            out@.len() == old(out)@.len(),
            forall|j: int| 0 <= j < values@.len() ==> call_requires(*f, (&values@[j],)),
            forall|j: int| 0 <= j < i ==> call_ensures(*f, (&values@[j],), #[trigger] out@[j]),
            forall|j: int| i <= j < out@.len() ==> #[trigger] out@[j] == old(out)@[j],
        decreases n - i,
    {
        let v = f(&values[i]);
        out[i] = v;
        i = i + 1;
    }
}

} // verus!
