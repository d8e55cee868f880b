//! Tile naming: the `[NS]dd[EW]ddd` file-stem convention ties a `.hgt`
//! file to the integral southwest corner of the 1-degree square it
//! covers, and the file's byte length determines its resolution.

use vstd::prelude::*;
use vstd::string::{StrSliceExecFns, StringExecFns};
use crate::errors::NasademError;

verus! {

/// Integral geographic coordinate of a tile's southwest corner;
/// `x` is the longitude and `y` the latitude, in whole degrees.
#[derive(Debug, Clone, Copy, PartialEq, Eq, Hash, Structural)]
pub struct SwCoord {
    pub x: i16,
    pub y: i16,
}

/// Numeric value of a decimal digit character, or -1 for any other
/// character.
pub open spec fn digit_val(c: char) -> int {
    if c == '0' {
        0
    } else if c == '1' {
        1
    } else if c == '2' {
        2
    } else if c == '3' {
        3
    } else if c == '4' {
        4
    } else if c == '5' {
        5
    } else if c == '6' {
        6
    } else if c == '7' {
        7
    } else if c == '8' {
        8
    } else if c == '9' {
        9
    } else {
        -1
    }
}

/// Character for a decimal digit value.
pub open spec fn digit_char(d: int) -> char {
    if d == 0 {
        '0'
    } else if d == 1 {
        '1'
    } else if d == 2 {
        '2'
    } else if d == 3 {
        '3'
    } else if d == 4 {
        '4'
    } else if d == 5 {
        '5'
    } else if d == 6 {
        '6'
    } else if d == 7 {
        '7'
    } else if d == 8 {
        '8'
    } else {
        '9'
    }
}

/// Whether a file stem matches the `[NS]dd[EW]ddd` tile-name pattern.
pub open spec fn name_matches(s: Seq<char>) -> bool {
    &&& s.len() == 7
    &&& (s[0] == 'N' || s[0] == 'S')
    &&& digit_val(s[1]) >= 0
    &&& digit_val(s[2]) >= 0
    &&& (s[3] == 'E' || s[3] == 'W')
    &&& digit_val(s[4]) >= 0
    &&& digit_val(s[5]) >= 0
    &&& digit_val(s[6]) >= 0
}

/// Latitude encoded by a matching tile name.
pub open spec fn name_lat(s: Seq<char>) -> int {
    (if s[0] == 'N' {
        1int
    } else {
        -1int
    }) * (10 * digit_val(s[1]) + digit_val(s[2]))
}

/// Longitude encoded by a matching tile name.
pub open spec fn name_lon(s: Seq<char>) -> int {
    (if s[3] == 'E' {
        1int
    } else {
        -1int
    }) * (100 * digit_val(s[4]) + 10 * digit_val(s[5]) + digit_val(s[6]))
}

/// Numeric value of a decimal digit character, as executable code.
fn digit_of(c: char) -> (d: i16)
    ensures
        d == digit_val(c),
{
    match c {
        '0' => 0,
        '1' => 1,
        '2' => 2,
        '3' => 3,
        '4' => 4,
        '5' => 5,
        '6' => 6,
        '7' => 7,
        '8' => 8,
        '9' => 9,
        _ => -1,
    }
}

/// Parses a tile file stem such as `N44W072` into the southwest corner
/// it names. Succeeds exactly on stems matching `[NS]dd[EW]ddd`.
pub fn parse_sw_corner(name: &str) -> (r: Result<SwCoord, NasademError>)
    ensures
        match r {
            Ok(sw) => name_matches(name@) && sw.x == name_lon(name@) && sw.y == name_lat(name@),
            Err(e) => e is HgtName && !name_matches(name@),
        },
{
    if name.unicode_len() != 7 {
        return Err(NasademError::HgtName(String::from_str(name)));
    }
    let c0 = name.get_char(0);
    let lat_sign: i16 = if c0 == 'N' {
        1
    } else if c0 == 'S' {
        -1
    } else {
        return Err(NasademError::HgtName(String::from_str(name)));
    };
    let d1 = digit_of(name.get_char(1));
    let d2 = digit_of(name.get_char(2));
    if d1 < 0 || d2 < 0 {
        return Err(NasademError::HgtName(String::from_str(name)));
    }
    let c3 = name.get_char(3);
    let lon_sign: i16 = if c3 == 'E' {
        1
    } else if c3 == 'W' {
        -1
    } else {
        return Err(NasademError::HgtName(String::from_str(name)));
    };
    let d4 = digit_of(name.get_char(4));
    let d5 = digit_of(name.get_char(5));
    let d6 = digit_of(name.get_char(6));
    if d4 < 0 || d5 < 0 || d6 < 0 {
        return Err(NasademError::HgtName(String::from_str(name)));
    }
    let lat: i16 = lat_sign * (10 * d1 + d2);
    let lon: i16 = lon_sign * (100 * d4 + 10 * d5 + d6);
    Ok(SwCoord { x: lon, y: lat })
}

/// The characters of the `.hgt` file name for a southwest corner:
/// hemisphere letter, two latitude digits, east/west letter, three
/// longitude digits, and the `.hgt` extension.
pub open spec fn spec_file_name(sw: SwCoord) -> Seq<char> {
    let la = abs_int(sw.y as int);
    let lo = abs_int(sw.x as int);
    seq![
        if sw.y < 0 { 'S' } else { 'N' },
        digit_char(la / 10),
        digit_char(la % 10),
        if sw.x < 0 { 'W' } else { 'E' },
        digit_char(lo / 100),
        digit_char((lo / 10) % 10),
        digit_char(lo % 10),
        '.',
        'h',
        'g',
        't',
    ]
}

/// Absolute value on spec integers.
pub open spec fn abs_int(v: int) -> int {
    if v < 0 {
        -v
    } else {
        v
    }
}

/// A one-character string for a decimal digit value.
fn digit_str(d: i16) -> (s: &'static str)
    requires
        0 <= d < 10,
    ensures
        s@ =~= seq![digit_char(d as int)],
{
    proof {
        reveal_strlit("0");
        reveal_strlit("1");
        reveal_strlit("2");
        reveal_strlit("3");
        reveal_strlit("4");
        reveal_strlit("5");
        reveal_strlit("6");
        reveal_strlit("7");
        reveal_strlit("8");
        reveal_strlit("9");
    }
    match d {
        0 => "0",
        1 => "1",
        2 => "2",
        3 => "3",
        4 => "4",
        5 => "5",
        6 => "6",
        7 => "7",
        8 => "8",
        _ => "9",
    }
}

/// Builds the `.hgt` file name that names `sw`, uppercase letters.
pub fn file_name(sw: SwCoord) -> (r: String)
    requires
        -90 <= sw.y <= 90,
        -180 <= sw.x <= 180,
    ensures
        r@ =~= spec_file_name(sw),
{
    proof {
        reveal_strlit("N");
        reveal_strlit("S");
        reveal_strlit("E");
        reveal_strlit("W");
        reveal_strlit(".hgt");
    }
    let la: i16 = if sw.y < 0 {
        -sw.y
    } else {
        sw.y
    };
    let lo: i16 = if sw.x < 0 {
        -sw.x
    } else {
        sw.x
    };
    let mut out = String::from_str(if sw.y < 0 {
        "S"
    } else {
        "N"
    });
    out.append(digit_str(la / 10));
    out.append(digit_str(la % 10));
    out.append(if sw.x < 0 {
        "W"
    } else {
        "E"
    });
    out.append(digit_str(lo / 100));
    out.append(digit_str((lo / 10) % 10));
    out.append(digit_str(lo % 10));
    out.append(".hgt");
    out
}

/// Byte length of a 1-arcsecond tile: 3601 x 3601 big-endian 16-bit
/// samples.
pub const RES_1_ARCSECOND_FILE_LEN: u64 = 25934402;

/// Byte length of a 3-arcsecond tile: 1201 x 1201 big-endian 16-bit
/// samples.
pub const RES_3_ARCSECOND_FILE_LEN: u64 = 2884802;

/// Deduces a tile's resolution, in arcseconds per sample, and its
/// `(columns, rows)` dimensions from its byte length. Exactly the two
/// lengths of a 1-arcsecond and a 3-arcsecond tile are accepted.
pub fn extract_resolution(file_len: u64) -> (r: Result<(u8, (usize, usize)), NasademError>)
    ensures
        match r {
            Ok(p) => (file_len == RES_1_ARCSECOND_FILE_LEN && p == (1u8, (3601usize, 3601usize)))
                || (file_len == RES_3_ARCSECOND_FILE_LEN && p == (3u8, (1201usize, 1201usize))),
            Err(e) => e is HgtLen && file_len != RES_1_ARCSECOND_FILE_LEN && file_len
                != RES_3_ARCSECOND_FILE_LEN,
        },
{
    if file_len == RES_1_ARCSECOND_FILE_LEN {
        Ok((1, (3601, 3601)))
    } else if file_len == RES_3_ARCSECOND_FILE_LEN {
        Ok((3, (1201, 1201)))
    } else {
        Err(NasademError::HgtLen(file_len))
    }
}

/// Tile names round-trip: parsing the stem of a generated file name
/// recovers the corner it was generated from.
pub proof fn lemma_file_name_round_trip(sw: SwCoord)
    requires
        -90 <= sw.y <= 90,
        -180 <= sw.x <= 180,
    ensures
        name_matches(spec_file_name(sw).take(7)),
        name_lon(spec_file_name(sw).take(7)) == sw.x,
        name_lat(spec_file_name(sw).take(7)) == sw.y,
{
    let s = spec_file_name(sw).take(7);
    let la = abs_int(sw.y as int);
    let lo = abs_int(sw.x as int);
    assert(s.len() == 7);
    assert(s[0] == spec_file_name(sw)[0]);
    assert(s[1] == digit_char(la / 10));
    assert(s[2] == digit_char(la % 10));
    assert(s[3] == spec_file_name(sw)[3]);
    assert(s[4] == digit_char(lo / 100));
    assert(s[5] == digit_char((lo / 10) % 10));
    assert(s[6] == digit_char(lo % 10));
    assert(0 <= la / 10 < 10 && 0 <= la % 10 < 10);
    assert(0 <= lo / 100 < 10 && 0 <= (lo / 10) % 10 < 10 && 0 <= lo % 10 < 10);
    assert(digit_val(digit_char(la / 10)) == la / 10);
    assert(digit_val(digit_char(la % 10)) == la % 10);
    assert(digit_val(digit_char(lo / 100)) == lo / 100);
    assert(digit_val(digit_char((lo / 10) % 10)) == (lo / 10) % 10);
    assert(digit_val(digit_char(lo % 10)) == lo % 10);
    assert(10 * (la / 10) + la % 10 == la);
    assert(100 * (lo / 100) + 10 * ((lo / 10) % 10) + lo % 10 == lo) by {
        assert(lo / 100 * 100 + lo % 100 == lo);
        assert(lo % 100 == 10 * ((lo % 100) / 10) + (lo % 100) % 10);
        assert((lo % 100) / 10 == (lo / 10) % 10) by (nonlinear_arith);
        assert((lo % 100) % 10 == lo % 10) by (nonlinear_arith);
    }
    assert(10 * digit_val(s[1]) + digit_val(s[2]) == la);
    assert(100 * digit_val(s[4]) + 10 * digit_val(s[5]) + digit_val(s[6]) == lo);
    if sw.y < 0 {
        assert(s[0] == 'S');
        assert(s[0] != 'N');
        assert(name_lat(s) == (-1int) * (10 * digit_val(s[1]) + digit_val(s[2])));
        assert(name_lat(s) == -la);
    } else {
        assert(s[0] == 'N');
        assert(name_lat(s) == la);
    }
    if sw.x < 0 {
        assert(s[3] == 'W');
        assert(s[3] != 'E');
        assert(name_lon(s) == (-1int) * (100 * digit_val(s[4]) + 10 * digit_val(s[5]) + digit_val(
            s[6],
        )));
        assert(name_lon(s) == -lo);
    } else {
        assert(s[3] == 'E');
        assert(name_lon(s) == lo);
    }
}

} // verus!
