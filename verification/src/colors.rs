//! Standard colors that tiles and markers can use.
//!
//! Color names are matched without regard to ASCII case, as the catalog files
//! spell them freely.

use vstd::prelude::*;

verus! {

/// A display color, as the hex code that the rendering layer emits.
pub struct Color {
    pub value: &'static str,
}

/// The ASCII-lowercase counterpart of a character.
pub open spec fn lower_char(c: char) -> char {
    if 'A' <= c && c <= 'Z' {
        (c as u8 + 32) as char
    } else {
        c
    }
}

/// A character sequence with every ASCII letter lowered.
pub open spec fn lower_seq(s: Seq<char>) -> Seq<char> {
    Seq::new(s.len(), |i: int| lower_char(s[i]))
}

/// The hex code that a color name denotes; an unknown name denotes black.
pub open spec fn spec_name_to_color(name: Seq<char>) -> Seq<char> {
    let n = lower_seq(name);
    if n == "ground"@ {
        "#FDD9B5"@
    } else if n == "yellow"@ {
        "#FDEE00"@
    } else if n == "green"@ {
        "#00A550"@
    } else if n == "russet"@ {
        "#CD7F32"@
    } else if n == "grey"@ {
        "#ACACAC"@
    } else if n == "brown"@ {
        "#7B3F00"@
    } else if n == "red"@ {
        "#DC143C"@
    } else if n == "blue"@ {
        "#007FFF"@
    } else if n == "barrier"@ {
        "#660000"@
    } else if n == "white"@ {
        "#FFFFFF"@
    } else {
        "#000000"@
    }
}

fn lower_char_exec(c: char) -> (r: char)
    ensures
        r == lower_char(c),
{
    let u = c as u32;
    if 65 <= u && u <= 90 {
        (c as u8 + 32) as char
    } else {
        c
    }
}

/// Whether a string equals another after lowering its ASCII letters.
fn eq_lowered(s: &str, t: &str) -> (r: bool)
    ensures
        r == (lower_seq(s@) == t@),
{
    let n = s.unicode_len();
    let m = t.unicode_len();
    if n != m {
        proof {
            assert(lower_seq(s@).len() != t@.len());
        }
        return false;
    }
    let mut i: usize = 0;
    loop
        invariant
            i <= n,
            n == s@.len(),
            n == t@.len(),
            forall|j: int| 0 <= j < i ==> lower_seq(s@)[j] == t@[j],
        ensures
            i <= n,
            forall|j: int| 0 <= j < i ==> lower_seq(s@)[j] == t@[j],
            i == n || lower_seq(s@)[i as int] != t@[i as int],
        decreases n - i,
    {
        if i == n {
            break ;
        }
        let a = lower_char_exec(s.get_char(i));
        let b = t.get_char(i);
        if a != b {
            break ;
        }
        i += 1;
    }
    if i == n {
        proof {
            assert(lower_seq(s@) =~= t@);
        }
        true
    } else {
        false
    }
}

impl Color {
    /// The hex code of the color.
    pub fn value(&self) -> (r: &str)
        ensures
            r@ == self.value@,
    {
        self.value
    }

    /// Sandy tan, the background of an empty hex.
    pub fn ground() -> (r: Color)
        ensures
            r.value@ == "#FDD9B5"@,
    {
        Color { value: "#FDD9B5" }
    }

    /// Aureolin.
    pub fn yellow() -> (r: Color)
        ensures
            r.value@ == "#FDEE00"@,
    {
        Color { value: "#FDEE00" }
    }

    /// Pigment green.
    pub fn green() -> (r: Color)
        ensures
            r.value@ == "#00A550"@,
    {
        Color { value: "#00A550" }
    }

    /// Bronze.
    pub fn russet() -> (r: Color)
        ensures
            r.value@ == "#CD7F32"@,
    {
        Color { value: "#CD7F32" }
    }

    /// Silver chalice.
    pub fn grey() -> (r: Color)
        ensures
            r.value@ == "#ACACAC"@,
    {
        Color { value: "#ACACAC" }
    }

    /// Chocolate.
    pub fn brown() -> (r: Color)
        ensures
            r.value@ == "#7B3F00"@,
    {
        Color { value: "#7B3F00" }
    }

    /// Crimson.
    pub fn red() -> (r: Color)
        ensures
            r.value@ == "#DC143C"@,
    {
        Color { value: "#DC143C" }
    }

    /// Azure.
    pub fn blue() -> (r: Color)
        ensures
            r.value@ == "#007FFF"@,
    {
        Color { value: "#007FFF" }
    }

    /// Blood red, for edge blockers.
    pub fn barrier() -> (r: Color)
        ensures
            r.value@ == "#660000"@,
    {
        Color { value: "#660000" }
    }

    pub fn white() -> (r: Color)
        ensures
            r.value@ == "#FFFFFF"@,
    {
        Color { value: "#FFFFFF" }
    }
}

impl Default for Color {
    /// The default color is the ground color.
    fn default() -> (r: Color)
        ensures
            r.value@ == "#FDD9B5"@,
    {
        Color::ground()
    }
}

/// Looks a color up by name, without regard to ASCII case; an unknown name
/// gives black.
pub fn name_to_color(name: &String) -> (r: Color)
    ensures
        r.value@ == spec_name_to_color(name@),
{
    if eq_lowered(name.as_str(), "ground") {
        Color { value: "#FDD9B5" }
    } else if eq_lowered(name.as_str(), "yellow") {
        Color { value: "#FDEE00" }
    } else if eq_lowered(name.as_str(), "green") {
        Color { value: "#00A550" }
    } else if eq_lowered(name.as_str(), "russet") {
        Color { value: "#CD7F32" }
    } else if eq_lowered(name.as_str(), "grey") {
        Color { value: "#ACACAC" }
    } else if eq_lowered(name.as_str(), "brown") {
        Color { value: "#7B3F00" }
    } else if eq_lowered(name.as_str(), "red") {
        Color { value: "#DC143C" }
    } else if eq_lowered(name.as_str(), "blue") {
        Color { value: "#007FFF" }
    } else if eq_lowered(name.as_str(), "barrier") {
        Color { value: "#660000" }
    } else if eq_lowered(name.as_str(), "white") {
        Color { value: "#FFFFFF" }
    } else {
        Color { value: "#000000" }
    }
}

} // verus!
