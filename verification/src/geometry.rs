//! Screen coordinates and rectangles.
//!
//! A coordinate is a single-precision number held by its sort key, an integer: the
//! number's bit pattern where the sign bit is clear, and minus one less the rest of the
//! pattern where it is set. Keys are ordered as the numbers are, with minus zero, the key
//! -1, right below zero; the two are told apart, but compare as the same number. Reading a
//! numeral and multiplying two lengths are left to the caller, who hands them in as
//! functions.

use crate::numerals::{decimal, decimal_of};
use crate::text::{chars_of, differs_at, find, find_text, pattern_found, pieces, search_is_exact,
    split, split_goes_on, split_text, string_of, trim, trimmed, unsplit_is_whole};
use vstd::prelude::*;

verus! {

/// A screen coordinate.
#[derive(Clone, Copy, Debug, PartialEq, Eq, Structural)]
pub enum Coord {
    /// A number, by its sort key.
    At(i64),
    /// Not a number: it compares with nothing.
    Nan,
}

/// The sort key of the largest finite number.
pub const LARGEST: i64 = 0x7f7f_ffff;

/// The sort key of infinity.
pub const INFINITE: i64 = 0x7f80_0000;

/// The place of the number with this sort key among the numbers: both zeros have the place 0.
pub open spec fn place(k: i64) -> int {
    if k < 0 {
        k + 1
    } else {
        k as int
    }
}

fn place_of(k: i64) -> (r: i64)
    ensures
        r == place(k),
{
    if k < 0 {
        k + 1
    } else {
        k
    }
}

impl Coord {
    /// The coordinate with a given bit pattern.
    pub open spec fn of_bits(bits: u32) -> Coord {
        let magnitude = if bits >= 0x8000_0000 {
            bits - 0x8000_0000
        } else {
            bits as int
        };
        if magnitude > INFINITE {
            Coord::Nan
        } else if bits >= 0x8000_0000 {
            Coord::At((-1 - magnitude) as i64)
        } else {
            Coord::At(magnitude as i64)
        }
    }

    /// Makes a coordinate of a number's bit pattern.
    pub fn from_bits(bits: u32) -> (r: Coord)
        ensures
            r == Coord::of_bits(bits),
    {
        let magnitude: u32 = if bits >= 0x8000_0000 {
            bits - 0x8000_0000
        } else {
            bits
        };
        if magnitude as i64 > INFINITE {
            Coord::Nan
        } else if bits >= 0x8000_0000 {
            Coord::At(-1 - (magnitude as i64))
        } else {
            Coord::At(magnitude as i64)
        }
    }

    /// The key is that of some number.
    pub open spec fn in_range(self) -> bool {
        self matches Coord::At(k) ==> -INFINITE <= place(k) <= INFINITE
    }

    /// The bit pattern of the coordinate's number. A key beyond infinity counts as
    /// infinity.
    pub open spec fn bits(self) -> u32 {
        match self {
            Coord::Nan => 0x7fc0_0000,
            Coord::At(k) => if k > INFINITE {
                INFINITE as u32
            } else if k >= 0 {
                k as u32
            } else if k < -INFINITE {
                (0x8000_0000 + INFINITE) as u32
            } else {
                (0x8000_0000 - 1 - k) as u32
            },
        }
    }

    /// Gives the bit pattern of the coordinate's number.
    pub fn to_bits(self) -> (r: u32)
        ensures
            r == self.bits(),
    {
        match self {
            Coord::Nan => 0x7fc0_0000,
            Coord::At(k) => if k > INFINITE {
                INFINITE as u32
            } else if k >= 0 {
                k as u32
            } else if k < -INFINITE {
                (0x8000_0000 + INFINITE) as u32
            } else {
                (0x8000_0000 - 1 - k) as u32
            },
        }
    }

    /// At most: false where one of the two is not a number.
    pub open spec fn le(self, other: Coord) -> bool {
        match (self, other) {
            (Coord::At(a), Coord::At(b)) => place(a) <= place(b),
            _ => false,
        }
    }

    /// Less: false where one of the two is not a number.
    pub open spec fn lt(self, other: Coord) -> bool {
        match (self, other) {
            (Coord::At(a), Coord::At(b)) => place(a) < place(b),
            _ => false,
        }
    }

    /// The same number.
    pub open spec fn same(self, other: Coord) -> bool {
        match (self, other) {
            (Coord::At(a), Coord::At(b)) => place(a) == place(b),
            _ => false,
        }
    }

    /// The smaller of two; the other one where one is not a number. Of the two zeros it is
    /// minus zero.
    pub open spec fn min(self, other: Coord) -> Coord {
        match (self, other) {
            (Coord::Nan, _) => other,
            (_, Coord::Nan) => self,
            (Coord::At(a), Coord::At(b)) => if a <= b {
                self
            } else {
                other
            },
        }
    }

    /// The larger of two; the other one where one is not a number. Of the two zeros it is
    /// the one without a sign.
    pub open spec fn max(self, other: Coord) -> Coord {
        match (self, other) {
            (Coord::Nan, _) => other,
            (_, Coord::Nan) => self,
            (Coord::At(a), Coord::At(b)) => if a >= b {
                self
            } else {
                other
            },
        }
    }

    /// Whether it is at most the other.
    pub fn at_most(self, other: Coord) -> (r: bool)
        ensures
            r == self.le(other),
    {
        match (self, other) {
            (Coord::At(a), Coord::At(b)) => place_of(a) <= place_of(b),
            _ => false,
        }
    }

    /// Whether it is less than the other.
    pub fn below(self, other: Coord) -> (r: bool)
        ensures
            r == self.lt(other),
    {
        match (self, other) {
            (Coord::At(a), Coord::At(b)) => place_of(a) < place_of(b),
            _ => false,
        }
    }

    /// Whether both are the same number.
    pub fn equals(self, other: Coord) -> (r: bool)
        ensures
            r == self.same(other),
    {
        match (self, other) {
            (Coord::At(a), Coord::At(b)) => place_of(a) == place_of(b),
            _ => false,
        }
    }

    /// Picks the smaller of two.
    pub fn lower(self, other: Coord) -> (r: Coord)
        ensures
            r == self.min(other),
    {
        match (self, other) {
            (Coord::Nan, _) => other,
            (_, Coord::Nan) => self,
            (Coord::At(a), Coord::At(b)) => if a <= b {
                self
            } else {
                other
            },
        }
    }

    /// Picks the larger of two.
    pub fn upper(self, other: Coord) -> (r: Coord)
        ensures
            r == self.max(other),
    {
        match (self, other) {
            (Coord::Nan, _) => other,
            (_, Coord::Nan) => self,
            (Coord::At(a), Coord::At(b)) => if a >= b {
                self
            } else {
                other
            },
        }
    }
}

/// A coordinate keeps its place through its bit pattern.
pub proof fn bits_round_trip(c: Coord)
    requires
        c.in_range(),
    ensures
        Coord::of_bits(c.bits()) == c,
{
}

/// A number comes back from its coordinate bit by bit, the sign of zero included.
pub proof fn numbers_are_kept(bits: u32)
    ensures
        Coord::of_bits(bits) !is Nan ==> Coord::of_bits(bits).bits() == bits,
{
}

/// A point on the screen.
#[derive(Clone, Copy, Debug, PartialEq, Eq, Structural)]
pub struct Pos {
    pub x: Coord,
    pub y: Coord,
}

/// A rectangle on the screen.
#[derive(Clone, Copy, Debug, PartialEq, Eq, Structural)]
pub struct Rect {
    pub min: Pos,
    pub max: Pos,
}

impl Rect {
    /// The point lies in the rectangle or on its edge.
    pub open spec fn covers(self, p: Pos) -> bool {
        self.min.x.le(p.x) && p.x.le(self.max.x) && self.min.y.le(p.y) && p.y.le(self.max.y)
    }

    /// The smallest rectangle that holds both.
    pub open spec fn joined(self, other: Rect) -> Rect {
        Rect {
            min: Pos { x: self.min.x.min(other.min.x), y: self.min.y.min(other.min.y) },
            max: Pos { x: self.max.x.max(other.max.x), y: self.max.y.max(other.max.y) },
        }
    }

    /// Whether the point lies in the rectangle or on its edge.
    pub fn contains(&self, p: Pos) -> (r: bool)
        ensures
            r == self.covers(p),
    {
        self.min.x.at_most(p.x) && p.x.at_most(self.max.x) && self.min.y.at_most(p.y)
            && p.y.at_most(self.max.y)
    }

    /// Joins two rectangles.
    pub fn union(self, other: Rect) -> (r: Rect)
        ensures
            r == self.joined(other),
    {
        Rect {
            min: Pos { x: self.min.x.lower(other.min.x), y: self.min.y.lower(other.min.y) },
            max: Pos { x: self.max.x.upper(other.max.x), y: self.max.y.upper(other.max.y) },
        }
    }
}

/// A joined rectangle covers what either of the two covers.
pub proof fn joined_covers(a: Rect, b: Rect, p: Pos)
    ensures
        a.covers(p) || b.covers(p) ==> a.joined(b).covers(p),
{
}

// ── Reading ──

/// `read` gives for each text what `g` says.
pub open spec fn reads_as<F: Fn(&str) -> Option<Coord>>(
    read: F,
    g: spec_fn(Seq<char>) -> Option<Coord>,
) -> bool {
    forall|s: &str, r: Option<Coord>| #[trigger] call_ensures(read, (s,), r) ==> r == g(s@)
}

/// `read` takes every text.
pub open spec fn reads_all<F: Fn(&str) -> Option<Coord>>(read: F) -> bool {
    forall|s: &str| call_requires(read, (s,))
}

/// The texts of the numbers in `[x,y][x,y]`: what stands between the commas of the first
/// corner and of the second.
pub open spec fn bounds_fields(s: Seq<char>) -> Option<(Seq<Seq<char>>, Seq<Seq<char>>)> {
    let t = trimmed(s);
    if t.len() < 2 || t[0] != '[' || t.last() != ']' {
        None
    } else {
        let inner = t.subrange(1, t.len() - 1);
        match find(inner, seq![']', '[']) {
            None => None,
            Some(i) => Some(
                (split(inner.take(i), seq![',']), split(inner.skip(i + 2), seq![','])),
            ),
        }
    }
}

/// The numbers among some texts, in order. A text that is no number is passed over.
pub open spec fn numbers(
    fields: Seq<Seq<char>>,
    g: spec_fn(Seq<char>) -> Option<Coord>,
) -> Seq<Coord>
    decreases fields.len(),
{
    if fields.len() == 0 {
        Seq::empty()
    } else {
        match g(trimmed(fields.last())) {
            Some(c) => numbers(fields.drop_last(), g).push(c),
            None => numbers(fields.drop_last(), g),
        }
    }
}

/// The rectangle that a `bounds` attribute stands for: two corners of two numbers each.
pub open spec fn bounds_of(s: Seq<char>, g: spec_fn(Seq<char>) -> Option<Coord>) -> Option<Rect> {
    match bounds_fields(s) {
        None => None,
        Some((first, second)) => {
            let p1 = numbers(first, g);
            let p2 = numbers(second, g);
            if p1.len() != 2 || p2.len() != 2 {
                None
            } else {
                Some(Rect { min: Pos { x: p1[0], y: p1[1] }, max: Pos { x: p2[0], y: p2[1] } })
            }
        },
    }
}

/// Reads the numbers between the commas of a text.
fn read_numbers<F: Fn(&str) -> Option<Coord>>(s: &[char], read: &F) -> (r: Vec<Coord>)
    requires
        reads_all(*read),
    ensures
        forall|g: spec_fn(Seq<char>) -> Option<Coord>| #[trigger]
            reads_as(*read, g) ==> r@ == numbers(split(s@, seq![',']), g),
{
    let comma: Vec<char> = vec![','];
    assert(comma@ =~= seq![',']);
    let fields = split_text(s, comma.as_slice());
    let mut out: Vec<Coord> = Vec::new();
    let n: usize = fields.len();
    let ghost all = pieces(fields@);
    for i in 0..n
        invariant
            n == fields@.len(),
            all == pieces(fields@),
            reads_all(*read),
            forall|g: spec_fn(Seq<char>) -> Option<Coord>| #[trigger]
                reads_as(*read, g) ==> out@ == numbers(all.take(i as int), g),
    {
        assert(all.take(i + 1).drop_last() == all.take(i as int));
        assert(all.take(i + 1).last() == fields@[i as int]@);
        let field = string_of(trim(fields[i].as_slice()));
        if let Some(c) = read(field.as_str()) {
            out.push(c);
        }
    }
    assert(all.take(n as int) == all);
    out
}

/// Reads a `bounds` attribute of the form `[x,y][x,y]`.
pub fn parse_bounds<F: Fn(&str) -> Option<Coord>>(s: &str, read: &F) -> (r: Option<Rect>)
    requires
        reads_all(*read),
    ensures
        forall|g: spec_fn(Seq<char>) -> Option<Coord>| #[trigger]
            reads_as(*read, g) ==> r == bounds_of(s@, g),
{
    let all = chars_of(s);
    let t = trim(all.as_slice());
    let n: usize = t.len();
    if n < 2 || t[0] != '[' || t[n - 1] != ']' {
        return None;
    }
    let inner = vstd::slice::slice_subrange(t, 1, n - 1);
    let gap: Vec<char> = vec![']', '['];
    assert(gap@ =~= seq![']', '[']);
    match find_text(inner, gap.as_slice()) {
        None => None,
        Some(i) => {
            let first = vstd::slice::slice_subrange(inner, 0, i);
            let second = vstd::slice::slice_subrange(inner, i + 2, inner.len());
            assert(first@ =~= inner@.take(i as int));
            assert(second@ =~= inner@.skip(i + 2));
            let p1 = read_numbers(first, read);
            let p2 = read_numbers(second, read);
            if p1.len() != 2 || p2.len() != 2 {
                None
            } else {
                Some(Rect { min: Pos { x: p1[0], y: p1[1] }, max: Pos { x: p2[0], y: p2[1] } })
            }
        },
    }
}

// ── Cropping ──

/// A region of an image, in pixels.
#[derive(Clone, Copy, Debug, PartialEq, Eq, Structural)]
pub struct Region {
    pub x: u32,
    pub y: u32,
    pub width: u32,
    pub height: u32,
}

impl Region {
    /// The pixel belongs to the region.
    pub open spec fn holds(self, x: int, y: int) -> bool {
        self.x <= x < self.x + self.width && self.y <= y < self.y + self.height
    }
}

/// `v` brought into the range from 0 to `high`.
pub open spec fn clamped(v: int, high: int) -> int {
    if v < 0 {
        0
    } else if v > high {
        high
    } else {
        v
    }
}

fn clamp(v: i64, high: u32) -> (r: u32)
    ensures
        r == clamped(v as int, high as int),
{
    if v < 0 {
        0
    } else if v > high as i64 {
        high
    } else {
        v as u32
    }
}

/// The message for a rectangle that no pixel of the image lies in.
pub open spec fn outside_message(
    x0: nat,
    y0: nat,
    x1: nat,
    y1: nat,
    width: nat,
    height: nat,
) -> Seq<char> {
    "element bounds ["@ + decimal(x0) + ","@ + decimal(y0) + "]["@ + decimal(x1) + ","@ + decimal(
        y1,
    ) + "] fall outside the image "@ + decimal(width) + "x"@ + decimal(height)
}

/// Cuts the rectangle from `(left, top)` to `(right, bottom)` down to an image of
/// `width` by `height` pixels. The region is never empty and never leaves the image:
/// nothing left is an error.
pub fn crop_region(left: i64, top: i64, right: i64, bottom: i64, width: u32, height: u32) -> (r:
    Result<Region, String>)
    ensures
        ({
            let x0 = clamped(left as int, width as int);
            let y0 = clamped(top as int, height as int);
            let x1 = clamped(right as int, width as int);
            let y1 = clamped(bottom as int, height as int);
            match r {
                Ok(region) => x0 < x1 && y0 < y1 && region.x == x0 && region.y == y0
                    && region.width == x1 - x0 && region.height == y1 - y0 && region.x
                    + region.width <= width && region.y + region.height <= height && region.width
                    > 0 && region.height > 0,
                Err(e) => (x1 <= x0 || y1 <= y0) && e@ == outside_message(
                    x0 as nat,
                    y0 as nat,
                    x1 as nat,
                    y1 as nat,
                    width as nat,
                    height as nat,
                ),
            }
        }),
        r matches Ok(region) ==> forall|x: int, y: int|
            #![trigger region.holds(x, y)]
            region.holds(x, y) <==> left <= x < right && top <= y < bottom && 0 <= x < width && 0
                <= y < height,
        r is Err <==> right <= left || bottom <= top || right <= 0 || bottom <= 0 || left >= width
            || top >= height || width == 0 || height == 0,
{
    let x0: u32 = clamp(left, width);
    let y0: u32 = clamp(top, height);
    let x1: u32 = clamp(right, width);
    let y1: u32 = clamp(bottom, height);
    if x1 <= x0 || y1 <= y0 {
        let mut e = String::new();
        e.append("element bounds [");
        e.append(decimal_of(x0 as u64).as_str());
        e.append(",");
        e.append(decimal_of(y0 as u64).as_str());
        e.append("][");
        e.append(decimal_of(x1 as u64).as_str());
        e.append(",");
        e.append(decimal_of(y1 as u64).as_str());
        e.append("] fall outside the image ");
        e.append(decimal_of(width as u64).as_str());
        e.append("x");
        e.append(decimal_of(height as u64).as_str());
        assert(e@ =~= outside_message(
            x0 as nat,
            y0 as nat,
            x1 as nat,
            y1 as nat,
            width as nat,
            height as nat,
        ));
        return Err(e);
    }
    Ok(Region { x: x0, y: y0, width: x1 - x0, height: y1 - y0 })
}

/// The place of a pixel in an image of four bytes to the pixel.
pub open spec fn pixel_offset(width: u32, x: int, y: int) -> int {
    (y * width + x) * 4
}

/// Picks the red, green and blue of a pixel out of an image of four bytes to the pixel.
/// A point outside the image has no color.
pub fn pixel_rgb(raw: &[u8], width: u32, height: u32, x: i64, y: i64) -> (r: Option<(u8, u8, u8)>)
    requires
        raw@.len() == width * height * 4,
    ensures
        r == (if 0 <= x < width && 0 <= y < height {
            let k = pixel_offset(width, x as int, y as int);
            Some((raw@[k], raw@[k + 1], raw@[k + 2]))
        } else {
            None
        }),
        0 <= x < width && 0 <= y < height ==> r == Some(
            (
                raw@[4 * (width * y + x)],
                raw@[4 * (width * y + x) + 1],
                raw@[4 * (width * y + x) + 2],
            ),
        ),
{
    assert(width * y == y * width) by (nonlinear_arith);
    if x >= 0 && y >= 0 && x < width as i64 && y < height as i64 {
        let ghost total = raw.len();
        assert(y * width + x <= width * height - 1) by (nonlinear_arith)
            requires
                0 <= x < width,
                0 <= y < height,
        ;
        assert(y * width >= 0) by (nonlinear_arith)
            requires
                y >= 0,
        ;
        assert((y as usize) * (width as usize) == y * width);
        let row: usize = (y as usize) * (width as usize);
        let k: usize = (row + x as usize) * 4;
        Some((raw[k], raw[k + 1], raw[k + 2]))
    } else {
        None
    }
}

// ── Laws ──

/// Coordinates compare as numbers do, by their keys, except that the two zeros are the same
/// number. What is no number compares with nothing. The smaller and the larger of two are one
/// of them, and a number is preferred to what is none.
pub proof fn coordinates_compare_by_key(a: i64, b: i64, c: Coord)
    ensures
        Coord::At(a).le(Coord::At(b)) <==> a <= b || (a == 0 && b == -1),
        Coord::At(a).lt(Coord::At(b)) <==> a < b && !(a == -1 && b == 0),
        Coord::At(a).same(Coord::At(b)) <==> a == b || (a == 0 && b == -1) || (a == -1 && b == 0),
        !Coord::Nan.le(c) && !c.le(Coord::Nan),
        !Coord::Nan.lt(c) && !c.lt(Coord::Nan),
        !Coord::Nan.same(c) && !c.same(Coord::Nan),
        Coord::At(a).min(Coord::At(b)) == (if a <= b {
            Coord::At(a)
        } else {
            Coord::At(b)
        }),
        Coord::At(a).max(Coord::At(b)) == (if a <= b {
            Coord::At(b)
        } else {
            Coord::At(a)
        }),
        Coord::Nan.min(c) == c && c.min(Coord::Nan) == c,
        Coord::Nan.max(c) == c && c.max(Coord::Nan) == c,
{
}

/// Bit patterns become coordinates in the order of their numbers: without the sign bit a larger
/// pattern is a larger number, with it a smaller one, and what has the sign bit is below what
/// has not, but for the two zeros. A pattern beyond that of infinity is no number.
pub proof fn bits_give_the_order(a: u32, b: u32)
    requires
        a < b <= 0x7f80_0000,
    ensures
        Coord::of_bits(a).lt(Coord::of_bits(b)),
        Coord::of_bits((b + 0x8000_0000) as u32).lt(Coord::of_bits((a + 0x8000_0000) as u32)),
        Coord::of_bits((b + 0x8000_0000) as u32).lt(Coord::of_bits(a)),
        Coord::of_bits((a + 0x8000_0000) as u32).lt(Coord::of_bits(b)),
        Coord::of_bits(0x8000_0000).same(Coord::of_bits(0)),
        forall|n: u32| #![trigger Coord::of_bits(n)] 0x7f80_0000 < n < 0x8000_0000 || n
            > 0xff80_0000 ==> Coord::of_bits(n) is Nan,
{
}

/// A rectangle holds a point exactly where the point is between all four of its sides, or on
/// one: not left of it, not right of it, not above it and not below it.
pub proof fn rectangles_have_four_sides(r: Rect, p: Pos)
    ensures
        r.covers(p) <==> {
            &&& r.min.x matches Coord::At(left) && p.x matches Coord::At(x) && (left <= x || (left
                == 0 && x == -1))
            &&& r.max.x matches Coord::At(right) && p.x matches Coord::At(x) && (x <= right || (x
                == 0 && right == -1))
            &&& r.min.y matches Coord::At(top) && p.y matches Coord::At(y) && (top <= y || (top
                == 0 && y == -1))
            &&& r.max.y matches Coord::At(bottom) && p.y matches Coord::At(y) && (y <= bottom || (y
                == 0 && bottom == -1))
        },
{
}

/// Each side of a joined rectangle is the outer one of the two.
pub proof fn joined_takes_outer_sides(a: Rect, b: Rect, i: i64, j: i64)
    requires
        i <= j,
    ensures
        a.min.x == Coord::At(i) && b.min.x == Coord::At(j) ==> a.joined(b).min.x == Coord::At(i)
            && b.joined(a).min.x == Coord::At(i),
        a.min.y == Coord::At(i) && b.min.y == Coord::At(j) ==> a.joined(b).min.y == Coord::At(i)
            && b.joined(a).min.y == Coord::At(i),
        a.max.x == Coord::At(i) && b.max.x == Coord::At(j) ==> a.joined(b).max.x == Coord::At(j)
            && b.joined(a).max.x == Coord::At(j),
        a.max.y == Coord::At(i) && b.max.y == Coord::At(j) ==> a.joined(b).max.y == Coord::At(j)
            && b.joined(a).max.y == Coord::At(j),
{
}

/// A text without the characters that separate the numbers of bounds.
pub open spec fn is_field(s: Seq<char>) -> bool {
    !s.contains(',') && !s.contains('[') && !s.contains(']')
}

/// Two texts in brackets, side by side.
pub open spec fn in_brackets(a: Seq<char>, b: Seq<char>) -> Seq<char> {
    seq!['['] + a + seq![']', '['] + b + seq![']']
}

/// Bounds of the form `[x,y][x,y]` are the rectangle from the first corner to the second, white
/// space around the whole and around each number aside. If one of the four is no number, they
/// are none.
pub proof fn bounds_are_two_corners(
    s: Seq<char>,
    x1: Seq<char>,
    y1: Seq<char>,
    x2: Seq<char>,
    y2: Seq<char>,
    g: spec_fn(Seq<char>) -> Option<Coord>,
)
    requires
        is_field(x1) && is_field(y1) && is_field(x2) && is_field(y2),
        trimmed(s) == seq!['['] + x1 + seq![','] + y1 + seq![']', '['] + x2 + seq![','] + y2 + seq![
            ']',
        ],
    ensures
        match (g(trimmed(x1)), g(trimmed(y1)), g(trimmed(x2)), g(trimmed(y2))) {
            (Some(l), Some(t), Some(r), Some(b)) => bounds_of(s, g) == Some(
                Rect { min: Pos { x: l, y: t }, max: Pos { x: r, y: b } },
            ),
            _ => bounds_of(s, g) is None,
        },
{
    let t = trimmed(s);
    let a = x1 + seq![','] + y1;
    let b = x2 + seq![','] + y2;
    assert forall|i: int| 0 <= i < a.len() implies #[trigger] a[i] != ']' by {
        field_has_none(x1, i);
        field_has_none(y1, i - x1.len() - 1);
    }
    assert(t =~= in_brackets(a, b));
    corners_found(s, a, b);
    two_fields(x1, y1);
    two_fields(x2, y2);
    numbers_of_two(x1, y1, g);
    numbers_of_two(x2, y2, g);
}

proof fn corners_found(s: Seq<char>, a: Seq<char>, b: Seq<char>)
    requires
        trimmed(s) == in_brackets(a, b),
        forall|i: int| 0 <= i < a.len() ==> #[trigger] a[i] != ']',
    ensures
        bounds_fields(s) == Some((split(a, seq![',']), split(b, seq![',']))),
{
    let t = trimmed(s);
    let gap = seq![']', '['];
    let inner = t.subrange(1, t.len() - 1);
    assert(inner =~= a + gap + b);
    assert(t[0] == '[' && t.last() == ']');
    gap_found(a, b);
    assert(inner.take(a.len() as int) =~= a);
    assert(inner.skip(a.len() as int + 2) =~= b);
}

proof fn gap_found(a: Seq<char>, b: Seq<char>)
    requires
        forall|i: int| 0 <= i < a.len() ==> #[trigger] a[i] != ']',
    ensures
        find(a + seq![']', '['] + b, seq![']', '[']) == Some(a.len() as int),
{
    let gap = seq![']', '['];
    let s = a + gap + b;
    assert(s.subrange(a.len() as int, a.len() as int + 2) =~= gap);
    assert forall|j: int| 0 <= j < a.len() implies #[trigger] s[j] != gap[0] by {
        assert(s[j] == a[j]);
    }
    pattern_found(s, gap, 0, a.len() as int);
}

proof fn field_has_none(s: Seq<char>, i: int)
    requires
        is_field(s),
    ensures
        0 <= i < s.len() ==> s[i] != ',' && s[i] != '[' && s[i] != ']',
{
    if 0 <= i < s.len() {
        assert(s.contains(s[i]));
    }
}

proof fn two_fields(x: Seq<char>, y: Seq<char>)
    requires
        is_field(x),
        is_field(y),
    ensures
        split(x + seq![','] + y, seq![',']) == seq![x, y],
{
    let comma = seq![','];
    assert forall|i: int| 0 <= i < x.len() implies #[trigger] differs_at(x + comma + y, comma, i) by {
        field_has_none(x, i);
        assert((x + comma + y)[i + 0] != comma[0]);
    }
    split_goes_on(x, comma, y);
    assert forall|i: int| 0 <= i && i + comma.len() <= y.len() implies #[trigger] differs_at(
        y,
        comma,
        i,
    ) by {
        field_has_none(y, i);
        assert(y[i + 0] != comma[0]);
    }
    unsplit_is_whole(y, comma);
    assert(seq![x] + seq![y] =~= seq![x, y]);
}

proof fn numbers_of_two(x: Seq<char>, y: Seq<char>, g: spec_fn(Seq<char>) -> Option<Coord>)
    ensures
        match (g(trimmed(x)), g(trimmed(y))) {
            (Some(a), Some(b)) => numbers(seq![x, y], g) == seq![a, b],
            _ => numbers(seq![x, y], g).len() < 2,
        },
{
    let both = seq![x, y];
    assert(both.drop_last() =~= seq![x]);
    assert(seq![x].drop_last() =~= Seq::<Seq<char>>::empty());
    assert(numbers(seq![x].drop_last(), g) =~= Seq::<Coord>::empty());
    assert(numbers(seq![x], g).len() <= 1);
    if let (Some(a), Some(b)) = (g(trimmed(x)), g(trimmed(y))) {
        assert(numbers(seq![x], g) =~= seq![a]);
        assert(numbers(both, g) =~= seq![a, b]);
    }
}

/// Bounds are read only from a text in two pairs of brackets, side by side.
pub proof fn bounds_stand_in_brackets(s: Seq<char>, g: spec_fn(Seq<char>) -> Option<Coord>)
    requires
        bounds_of(s, g) is Some,
    ensures
        exists|a: Seq<char>, b: Seq<char>|
            trimmed(s) == #[trigger] in_brackets(a, b),
{
    let t = trimmed(s);
    let inner = t.subrange(1, t.len() - 1);
    let gap = seq![']', '['];
    search_is_exact(inner, gap);
    let k = find(inner, gap)->0;
    assert(inner[k + 0] == gap[0] && inner[k + 1] == gap[1]);
    let a = inner.take(k);
    let b = inner.skip(k + 2);
    assert(t =~= in_brackets(a, b));
}

/// A clamped number stays where it is if it is in range, and else goes to the nearer end.
pub proof fn clamping_goes_to_the_nearer_end(v: int, high: int)
    requires
        0 <= high,
    ensures
        0 <= clamped(v, high) <= high,
        0 <= v <= high ==> clamped(v, high) == v,
        v < 0 ==> clamped(v, high) == 0,
        v > high ==> clamped(v, high) == high,
{
}

/// The coordinate of every bit pattern is in range.
pub proof fn numbers_are_in_range(bits: u32)
    ensures
        Coord::of_bits(bits).in_range(),
{
}

/// Whoever reads equal texts alike, reads as some function of the text.
pub proof fn steady_readers_have_a_meaning<F: Fn(&str) -> Option<Coord>>(read: F)
    requires
        forall|s: &str, t: &str, a: Option<Coord>, b: Option<Coord>|
            #![trigger call_ensures(read, (s,), a), call_ensures(read, (t,), b)]
            s@ == t@ && call_ensures(read, (s,), a) && call_ensures(read, (t,), b) ==> a == b,
    ensures
        exists|g: spec_fn(Seq<char>) -> Option<Coord>| #[trigger] reads_as(read, g),
        (forall|s: &str| call_requires(read, (s,))) ==> reads_all(read),
{
    let g = |text: Seq<char>|
        {
            let (_, r) = choose|t: &str, r: Option<Coord>|
                t@ == text && #[trigger] call_ensures(read, (t,), r);
            r
        };
    assert forall|s: &str, r: Option<Coord>| #[trigger] call_ensures(read, (s,), r) implies r == g(
        s@,
    ) by {
        let (t, other) = choose|t: &str, c: Option<Coord>|
            t@ == s@ && #[trigger] call_ensures(read, (t,), c);
        assert(call_ensures(read, (t,), other));
        assert(g(s@) == other);
    }
    assert(reads_as(read, g));
}

} // verus!
