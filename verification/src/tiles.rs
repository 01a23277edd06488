//! Tile coordinates, rectangular regions of tiles, and the names of tile files.
use vstd::prelude::*;
use vstd::string::StrSliceExecFns;
use vstd::string::StringExecFns;

verus! {

/// The coordinates of a tile (one tile is 1000 by 1000 meters).
#[derive(Debug, Copy, Clone, Hash, PartialEq, Eq, Structural)]
pub struct TileCoordinates {
    pub x: i32,
    pub y: i32,
}

/// A rectangle of tiles, given by the inclusive ranges of tile x- and y-coordinates.
#[derive(Debug, Copy, Clone, Hash, PartialEq, Eq, Structural)]
pub struct TileRegion {
    pub x_min: i32,
    pub x_max: i32,
    pub y_min: i32,
    pub y_max: i32,
}

impl TileRegion {
    /// The number of tile columns, `x_max - x_min + 1`.
    pub open spec fn x_count(self) -> int {
        self.x_max - self.x_min + 1
    }

    /// The number of tile rows, `y_max - y_min + 1`.
    pub open spec fn y_count(self) -> int {
        self.y_max - self.y_min + 1
    }

    /// The number of tiles in the region, computed in `i32` and converted to `usize` as the
    /// cast does (a negative count wraps around).
    pub fn area(&self) -> (area: usize)
        requires
            i32::MIN <= self.x_max - self.x_min,
            self.x_count() <= i32::MAX,
            i32::MIN <= self.y_max - self.y_min,
            self.y_count() <= i32::MAX,
            i32::MIN <= self.x_count() * self.y_count() <= i32::MAX,
        ensures
            area == (self.x_count() * self.y_count()) as usize,
    {
        #[verifier::truncate]
        (((self.x_max - self.x_min + 1) * (self.y_max - self.y_min + 1)) as usize)
    }

    /// The coordinates of all tiles of the region: column by column (x ascending), each column
    /// from `y_min` to `y_max`.
    pub fn coordinates(&self) -> (coordinates: Vec<TileCoordinates>)
        requires
            self.x_count() * self.y_count() <= usize::MAX,
        ensures
            self.x_count() <= 0 || self.y_count() <= 0 ==> coordinates@.len() == 0,
            self.x_count() > 0 && self.y_count() > 0 ==> {
                &&& coordinates@.len() == self.x_count() * self.y_count()
                &&& forall|i: int, j: int|
                    0 <= i < self.x_count() && 0 <= j < self.y_count() ==> #[trigger] coordinates@[i
                        * self.y_count() + j] == (TileCoordinates {
                        x: (self.x_min + i) as i32,
                        y: (self.y_min + j) as i32,
                    })
            },
    {
        let mut coordinates: Vec<TileCoordinates> = Vec::new();
        if self.x_max < self.x_min || self.y_max < self.y_min {
            return coordinates;
        }
        let ny: i64 = self.y_max as i64 - self.y_min as i64 + 1;
        let nx: i64 = self.x_max as i64 - self.x_min as i64 + 1;
        let mut i: i64 = 0;
        while i < nx
            invariant
                nx == self.x_count(),
                ny == self.y_count(),
                nx > 0,
                ny > 0,
                nx * ny <= usize::MAX,
                0 <= i <= nx,
                coordinates@.len() == i * ny,
                forall|a: int, b: int|
                    0 <= a < i && 0 <= b < ny ==> #[trigger] coordinates@[a * ny + b] == (
                    TileCoordinates { x: (self.x_min + a) as i32, y: (self.y_min + b) as i32 }),
            decreases nx - i,
        {
            let mut j: i64 = 0;
            while j < ny
                invariant
                    nx == self.x_count(),
                    ny == self.y_count(),
                    nx > 0,
                    ny > 0,
                    nx * ny <= usize::MAX,
                    0 <= i < nx,
                    0 <= j <= ny,
                    coordinates@.len() == i * ny + j,
                    forall|a: int, b: int|
                        0 <= a < i && 0 <= b < ny ==> #[trigger] coordinates@[a * ny + b] == (
                        TileCoordinates {
                            x: (self.x_min + a) as i32,
                            y: (self.y_min + b) as i32,
                        }),
                    forall|b: int|
                        0 <= b < j ==> #[trigger] coordinates@[i * ny + b] == (TileCoordinates {
                            x: (self.x_min + i) as i32,
                            y: (self.y_min + b) as i32,
                        }),
                decreases ny - j,
            {
                proof {
                    assert(i * ny + j < nx * ny) by (nonlinear_arith)
                        requires
                            0 <= i < nx,
                            0 <= j < ny,
                    {
                    }
                }
                coordinates.push(
                    TileCoordinates {
                        x: (self.x_min as i64 + i) as i32,
                        y: (self.y_min as i64 + j) as i32,
                    },
                );
                proof {
                    assert forall|a: int, b: int|
                        0 <= a < i && 0 <= b < ny implies #[trigger] coordinates@[a * ny + b]
                        == (TileCoordinates {
                        x: (self.x_min + a) as i32,
                        y: (self.y_min + b) as i32,
                    }) by {
                        assert(a * ny + b < i * ny) by (nonlinear_arith)
                            requires
                                0 <= a < i,
                                0 <= b < ny,
                        {
                        }
                    }
                }
                j = j + 1;
            }
            proof {
                assert forall|a: int, b: int|
                    0 <= a < i + 1 && 0 <= b < ny implies #[trigger] coordinates@[a * ny + b] == (
                    TileCoordinates { x: (self.x_min + a) as i32, y: (self.y_min + b) as i32 }) by {
                    if a == i {
                    }
                }
                assert((i + 1) * ny == i * ny + ny) by (nonlinear_arith);
            }
            i = i + 1;
        }
        coordinates
    }
}

/// The character of the decimal digit `d`.
pub open spec fn digit_char(d: int) -> char {
    (48 + d) as char
}

/// The decimal digits of `n`, most significant first, without leading zeros.
pub open spec fn decimal(n: nat) -> Seq<char>
    decreases n,
{
    if n < 10 {
        seq![digit_char(n as int)]
    } else {
        decimal(n / 10).push(digit_char((n % 10) as int))
    }
}

/// How `Display` writes the integer `v`: a minus sign for negative numbers, then the decimal
/// digits of its magnitude.
pub open spec fn display_int(v: int) -> Seq<char> {
    if v < 0 {
        seq!['-'] + decimal((-v) as nat)
    } else {
        decimal(v as nat)
    }
}

/// `s`, filled on the left with `'0'` up to `width` characters (the format `{:0>width}`).
pub open spec fn pad_zeros(s: Seq<char>, width: nat) -> Seq<char> {
    if s.len() < width {
        Seq::new((width - s.len()) as nat, |i: int| '0') + s
    } else {
        s
    }
}

/// The name of the height-map file of a tile.
pub open spec fn spec_tile_filename(coordinates: TileCoordinates) -> Seq<char> {
    "LHD_FXX_"@ + pad_zeros(display_int(coordinates.x as int), 4) + "_"@ + pad_zeros(
        display_int(coordinates.y as int),
        4,
    ) + "_MNS_O_0M50_LAMB93_IGN69.tif"@
}

/// The one-character string of the decimal digit `d`.
fn digit_str(d: u8) -> (s: &'static str)
    requires
        d < 10,
    ensures
        s@ == seq![digit_char(d as int)],
{
    proof {
        reveal_strlit("0");
        reveal_strlit("1");
        reveal_strlit("2");
        reveal_strlit("3");
        reveal_strlit("4");
        reveal_strlit("5");
        reveal_strlit("6");
        reveal_strlit("7");
        reveal_strlit("8");
        reveal_strlit("9");
    }
    match d {
        0 => "0",
        1 => "1",
        2 => "2",
        3 => "3",
        4 => "4",
        5 => "5",
        6 => "6",
        7 => "7",
        8 => "8",
        _ => "9",
    }
}

/// Appends the decimal digits of `n` to `out`.
fn push_decimal(n: u64, out: &mut String)
    ensures
        final(out)@ == old(out)@ + decimal(n as nat),
    decreases n,
{
    if n >= 10 {
        push_decimal(n / 10, out);
    }
    let d: u8 = (n % 10) as u8;
    out.append(digit_str(d));
    proof {
        if n >= 10 {
            assert(decimal(n as nat) == decimal((n / 10) as nat).push(digit_char((n % 10) as int)));
        }
    }
}

/// Appends `value` as `{:0>4}` writes it.
fn push_padded(value: i32, out: &mut String)
    ensures
        final(out)@ == old(out)@ + pad_zeros(display_int(value as int), 4),
{
    let mut text = String::new();
    if value < 0 {
        proof {
            reveal_strlit("-");
        }
        text.append("-");
        push_decimal((-(value as i64)) as u64, &mut text);
    } else {
        push_decimal(value as u64, &mut text);
    }
    let ghost shown = display_int(value as int);
    assert(text@ == shown);
    let ghost before = out@;
    let text_len = text.as_str().unicode_len();
    let mut k: usize = text_len;
    while k < 4
        invariant
            text@ == shown,
            text_len == text@.len(),
            text_len <= k,
            k <= 4 || k == text_len,
            out@ == before + Seq::new((k - text_len) as nat, |i: int| '0'),
        decreases 4 - k,
    {
        proof {
            reveal_strlit("0");
        }
        out.append("0");
        assert(out@ == before + Seq::new((k + 1 - text_len) as nat, |i: int| '0'));
        k = k + 1;
    }
    let ghost zeros = out@;
    out.append(text.as_str());
    proof {
        if shown.len() < 4 {
            assert(zeros == before + Seq::new((4 - shown.len()) as nat, |i: int| '0'));
        } else {
            assert(zeros == before + Seq::<char>::empty());
        }
    }
}

/// The name of the height-map file of the tile at `coordinates`, such as
/// `LHD_FXX_0650_6860_MNS_O_0M50_LAMB93_IGN69.tif`.
pub fn tile_filename(coordinates: TileCoordinates) -> (name: String)
    ensures
        name@ == spec_tile_filename(coordinates),
{
    let mut name = String::new();
    name.append("LHD_FXX_");
    push_padded(coordinates.x, &mut name);
    name.append("_");
    push_padded(coordinates.y, &mut name);
    name.append("_MNS_O_0M50_LAMB93_IGN69.tif");
    name
}

} // verus!
