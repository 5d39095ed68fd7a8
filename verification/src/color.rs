//! Parsing the hex colors the application hands in when it restyles the
//! main window's background.
//!
//! A color arrives as six hexadecimal digits, optionally behind leading `#`
//! marks (`"#F8F8F8"`); it parses to red, green and blue bytes with a fully
//! opaque alpha.  Anything else is rejected.

use vstd::prelude::*;

verus! {

/// A hexadecimal digit, either case.
pub open spec fn is_hex_digit(c: char) -> bool {
    (48 <= c as u32 && c as u32 <= 57) || (97 <= c as u32 && c as u32 <= 102) || (65 <= c as u32
        && c as u32 <= 70)
}

/// The value of one hexadecimal digit.
pub open spec fn hex_val(c: char) -> int {
    if 48 <= c as u32 && c as u32 <= 57 {
        c as u32 - 48
    } else if 97 <= c as u32 && c as u32 <= 102 {
        c as u32 - 87
    } else {
        c as u32 - 55
    }
}

/// The color string with its leading `#` marks removed.
pub open spec fn strip_hashes(s: Seq<char>) -> Seq<char>
    decreases s.len(),
{
    if s.len() > 0 && s[0] == '#' {
        strip_hashes(s.drop_first())
    } else {
        s
    }
}

/// A well-formed color: after the `#` marks, exactly six hex digits.
pub open spec fn valid_hex_color(s: Seq<char>) -> bool {
    let t = strip_hashes(s);
    t.len() == 6 && forall|i: int| 0 <= i < 6 ==> is_hex_digit(#[trigger] t[i])
}

/// The byte two hex digits denote.
pub open spec fn hex_byte(h: char, l: char) -> int {
    hex_val(h) * 16 + hex_val(l)
}

/// The value of one hexadecimal digit, executably.
fn hex_val_exec(c: char) -> (r: u8)
    requires
        is_hex_digit(c),
    ensures
        r == hex_val(c),
        r < 16,
{
    let n = c as u32;
    if 48 <= n && n <= 57 {
        (n - 48) as u8
    } else if 97 <= n && n <= 102 {
        (n - 87) as u8
    } else {
        (n - 55) as u8
    }
}

/// The main window's background for a theme name, mirroring the executable
/// branch order: light, then dark, then nothing for an unknown theme.
pub open spec fn theme_background_post(theme: Seq<char>, r: Option<(u8, u8, u8, u8)>) -> bool {
    if theme == "light"@ {
        r == Some((248u8, 248u8, 248u8, 255u8))
    } else if theme == "dark"@ {
        r == Some((28u8, 28u8, 30u8, 255u8))
    } else {
        r is None
    }
}

/// The background color each desktop theme uses for the main window; an
/// unknown theme name is rejected.
pub fn theme_background(theme: &str) -> (r: Option<(u8, u8, u8, u8)>)
    ensures
        theme_background_post(theme@, r),
{
    if crate::normalize::str_eq(theme, "light") {
        Some((248, 248, 248, 255))
    } else if crate::normalize::str_eq(theme, "dark") {
        Some((28, 28, 30, 255))
    } else {
        None
    }
}

/// Parse a `"#RRGGBB"` color into red, green, blue and a fully opaque
/// alpha; reports nothing for a malformed color.
pub fn hex_to_rgba(s: &str) -> (r: Option<(u8, u8, u8, u8)>)
    ensures
        valid_hex_color(s@) ==> (r matches Some(c) && {
            let t = strip_hashes(s@);
            &&& c.0 == hex_byte(t[0], t[1])
            &&& c.1 == hex_byte(t[2], t[3])
            &&& c.2 == hex_byte(t[4], t[5])
            &&& c.3 == 255
        }),
        !valid_hex_color(s@) ==> r is None,
{
    let n = s.unicode_len();
    let mut start: usize = 0;
    proof {
        assert(s@.skip(0) =~= s@);
    }
    while start < n && s.get_char(start) == '#'
        invariant
            n == s@.len(),
            0 <= start <= n,
            strip_hashes(s@) == strip_hashes(s@.skip(start as int)),
        decreases n - start,
    {
        proof {
            let suf = s@.skip(start as int);
            assert(suf[0] == '#');
            assert(suf.drop_first() =~= s@.skip(start as int + 1));
        }
        start = start + 1;
    }
    proof {
        let suf = s@.skip(start as int);
        if suf.len() > 0 {
            assert(suf[0] == s@[start as int]);
        }
        assert(strip_hashes(suf) == suf);
        assert(strip_hashes(s@) == suf);
    }
    if n - start != 6 {
        return None;
    }
    let ghost t = strip_hashes(s@);
    let mut digits: Vec<u8> = Vec::new();
    let mut i: usize = 0;
    while i < 6
        invariant
            n == s@.len(),
            start + 6 == n,
            t == strip_hashes(s@),
            t =~= s@.skip(start as int),
            0 <= i <= 6,
            digits@.len() == i,
            forall|j: int| 0 <= j < i ==> is_hex_digit(#[trigger] t[j]),
            forall|j: int| 0 <= j < i ==> #[trigger] digits@[j] == hex_val(t[j]),
        decreases 6 - i,
    {
        let c = s.get_char(start + i);
        proof {
            assert(t[i as int] == s@[start + i]);
        }
        let v = c as u32;
        if !((48 <= v && v <= 57) || (97 <= v && v <= 102) || (65 <= v && v <= 70)) {
            proof {
                assert(!is_hex_digit(t[i as int]));
                assert(!valid_hex_color(s@));
            }
            return None;
        }
        digits.push(hex_val_exec(c));
        i = i + 1;
    }
    proof {
        assert(valid_hex_color(s@));
    }
    let red = digits[0] * 16 + digits[1];
    let green = digits[2] * 16 + digits[3];
    let blue = digits[4] * 16 + digits[5];
    Some((red, green, blue, 255))
}

} // verus!
