use vstd::prelude::*;
use vstd::string::*;

use crate::text::{lowercase, lowercase_of, str_eq};

verus! {

/// The palettes of the tailwind colour scheme.
#[derive(Clone, Copy, Debug, PartialEq, Eq, Structural)]
pub enum Palette {
    Amber,
    Blue,
    Cyan,
    Emerald,
    Fuchsia,
    Gray,
    Green,
    Indigo,
    Lime,
    Neutral,
    Orange,
    Pink,
    Purple,
    Red,
    Rose,
    Sky,
    Slate,
    Stone,
    Teal,
    Violet,
    Yellow,
    Zinc,
}

/// The shades of a tailwind palette.
#[derive(Clone, Copy, Debug, PartialEq, Eq, Structural)]
pub enum Shade {
    S50,
    S100,
    S200,
    S300,
    S400,
    S500,
    S600,
    S700,
    S800,
    S900,
    S950,
}

/// A colour named in the tailwind scheme, or white for a name outside it.
#[derive(Clone, Copy, Debug, PartialEq, Eq, Structural)]
pub enum TailwindColour {
    Named { palette: Palette, shade: Shade },
    White,
}

/// The name of a palette, in lower case.
pub open spec fn palette_name(p: Palette) -> Seq<char> {
    match p {
        Palette::Amber => "amber"@,
        Palette::Blue => "blue"@,
        Palette::Cyan => "cyan"@,
        Palette::Emerald => "emerald"@,
        Palette::Fuchsia => "fuchsia"@,
        Palette::Gray => "gray"@,
        Palette::Green => "green"@,
        Palette::Indigo => "indigo"@,
        Palette::Lime => "lime"@,
        Palette::Neutral => "neutral"@,
        Palette::Orange => "orange"@,
        Palette::Pink => "pink"@,
        Palette::Purple => "purple"@,
        Palette::Red => "red"@,
        Palette::Rose => "rose"@,
        Palette::Sky => "sky"@,
        Palette::Slate => "slate"@,
        Palette::Stone => "stone"@,
        Palette::Teal => "teal"@,
        Palette::Violet => "violet"@,
        Palette::Yellow => "yellow"@,
        Palette::Zinc => "zinc"@,
    }
}

/// The name of a shade.
pub open spec fn shade_name(s: Shade) -> Seq<char> {
    match s {
        Shade::S50 => "50"@,
        Shade::S100 => "100"@,
        Shade::S200 => "200"@,
        Shade::S300 => "300"@,
        Shade::S400 => "400"@,
        Shade::S500 => "500"@,
        Shade::S600 => "600"@,
        Shade::S700 => "700"@,
        Shade::S800 => "800"@,
        Shade::S900 => "900"@,
        Shade::S950 => "950"@,
    }
}

/// The name of a tailwind colour: palette, a hyphen, shade (such as `blue-500`).
pub open spec fn colour_name(p: Palette, s: Shade) -> Seq<char> {
    palette_name(p) + "-"@ + shade_name(s)
}

/// Whether `c` is the colour that `name` names: the named colour when `name` is a
/// colour's name, white when it names none.
pub open spec fn names_colour(name: Seq<char>, c: TailwindColour) -> bool {
    match c {
        TailwindColour::Named { palette, shade } => name == colour_name(palette, shade),
        TailwindColour::White => forall|p: Palette, s: Shade| name != #[trigger] colour_name(p, s),
    }
}

/// The palette at a position of the scheme's list.
pub open spec fn palette_at(i: int) -> Palette {
    if i == 0 {
        Palette::Amber
    } else if i == 1 {
        Palette::Blue
    } else if i == 2 {
        Palette::Cyan
    } else if i == 3 {
        Palette::Emerald
    } else if i == 4 {
        Palette::Fuchsia
    } else if i == 5 {
        Palette::Gray
    } else if i == 6 {
        Palette::Green
    } else if i == 7 {
        Palette::Indigo
    } else if i == 8 {
        Palette::Lime
    } else if i == 9 {
        Palette::Neutral
    } else if i == 10 {
        Palette::Orange
    } else if i == 11 {
        Palette::Pink
    } else if i == 12 {
        Palette::Purple
    } else if i == 13 {
        Palette::Red
    } else if i == 14 {
        Palette::Rose
    } else if i == 15 {
        Palette::Sky
    } else if i == 16 {
        Palette::Slate
    } else if i == 17 {
        Palette::Stone
    } else if i == 18 {
        Palette::Teal
    } else if i == 19 {
        Palette::Violet
    } else if i == 20 {
        Palette::Yellow
    } else {
        Palette::Zinc
    }
}

/// The position of a palette in the scheme's list.
pub open spec fn palette_index(p: Palette) -> int {
    match p {
        Palette::Amber => 0,
        Palette::Blue => 1,
        Palette::Cyan => 2,
        Palette::Emerald => 3,
        Palette::Fuchsia => 4,
        Palette::Gray => 5,
        Palette::Green => 6,
        Palette::Indigo => 7,
        Palette::Lime => 8,
        Palette::Neutral => 9,
        Palette::Orange => 10,
        Palette::Pink => 11,
        Palette::Purple => 12,
        Palette::Red => 13,
        Palette::Rose => 14,
        Palette::Sky => 15,
        Palette::Slate => 16,
        Palette::Stone => 17,
        Palette::Teal => 18,
        Palette::Violet => 19,
        Palette::Yellow => 20,
        Palette::Zinc => 21,
    }
}

/// The shade at a position of the scheme's list.
pub open spec fn shade_at(i: int) -> Shade {
    if i == 0 {
        Shade::S50
    } else if i == 1 {
        Shade::S100
    } else if i == 2 {
        Shade::S200
    } else if i == 3 {
        Shade::S300
    } else if i == 4 {
        Shade::S400
    } else if i == 5 {
        Shade::S500
    } else if i == 6 {
        Shade::S600
    } else if i == 7 {
        Shade::S700
    } else if i == 8 {
        Shade::S800
    } else if i == 9 {
        Shade::S900
    } else {
        Shade::S950
    }
}

/// The position of a shade in the scheme's list.
pub open spec fn shade_index(s: Shade) -> int {
    match s {
        Shade::S50 => 0,
        Shade::S100 => 1,
        Shade::S200 => 2,
        Shade::S300 => 3,
        Shade::S400 => 4,
        Shade::S500 => 5,
        Shade::S600 => 6,
        Shade::S700 => 7,
        Shade::S800 => 8,
        Shade::S900 => 9,
        Shade::S950 => 10,
    }
}

proof fn lemma_palette_index(p: Palette)
    ensures
        0 <= palette_index(p) < 22,
        palette_at(palette_index(p)) == p,
{
}

proof fn lemma_shade_index(s: Shade)
    ensures
        0 <= shade_index(s) < 11,
        shade_at(shade_index(s)) == s,
{
}

fn palette_from_index(i: usize) -> (p: Palette)
    requires
        i < 22,
    ensures
        p == palette_at(i as int),
{
    match i {
        0 => Palette::Amber,
        1 => Palette::Blue,
        2 => Palette::Cyan,
        3 => Palette::Emerald,
        4 => Palette::Fuchsia,
        5 => Palette::Gray,
        6 => Palette::Green,
        7 => Palette::Indigo,
        8 => Palette::Lime,
        9 => Palette::Neutral,
        10 => Palette::Orange,
        11 => Palette::Pink,
        12 => Palette::Purple,
        13 => Palette::Red,
        14 => Palette::Rose,
        15 => Palette::Sky,
        16 => Palette::Slate,
        17 => Palette::Stone,
        18 => Palette::Teal,
        19 => Palette::Violet,
        20 => Palette::Yellow,
        _ => Palette::Zinc,
    }
}

fn shade_from_index(i: usize) -> (s: Shade)
    requires
        i < 11,
    ensures
        s == shade_at(i as int),
{
    match i {
        0 => Shade::S50,
        1 => Shade::S100,
        2 => Shade::S200,
        3 => Shade::S300,
        4 => Shade::S400,
        5 => Shade::S500,
        6 => Shade::S600,
        7 => Shade::S700,
        8 => Shade::S800,
        9 => Shade::S900,
        _ => Shade::S950,
    }
}

fn palette_str(p: Palette) -> (name: &'static str)
    ensures
        name@ == palette_name(p),
{
    match p {
        Palette::Amber => "amber",
        Palette::Blue => "blue",
        Palette::Cyan => "cyan",
        Palette::Emerald => "emerald",
        Palette::Fuchsia => "fuchsia",
        Palette::Gray => "gray",
        Palette::Green => "green",
        Palette::Indigo => "indigo",
        Palette::Lime => "lime",
        Palette::Neutral => "neutral",
        Palette::Orange => "orange",
        Palette::Pink => "pink",
        Palette::Purple => "purple",
        Palette::Red => "red",
        Palette::Rose => "rose",
        Palette::Sky => "sky",
        Palette::Slate => "slate",
        Palette::Stone => "stone",
        Palette::Teal => "teal",
        Palette::Violet => "violet",
        Palette::Yellow => "yellow",
        Palette::Zinc => "zinc",
    }
}

fn shade_str(s: Shade) -> (name: &'static str)
    ensures
        name@ == shade_name(s),
{
    match s {
        Shade::S50 => "50",
        Shade::S100 => "100",
        Shade::S200 => "200",
        Shade::S300 => "300",
        Shade::S400 => "400",
        Shade::S500 => "500",
        Shade::S600 => "600",
        Shade::S700 => "700",
        Shade::S800 => "800",
        Shade::S900 => "900",
        Shade::S950 => "950",
    }
}

/// The colour that a scan of the scheme finds for `name`, from palette `i` and shade `j`
/// on: the first colour, palette by palette and shade by shade, whose name is `name`;
/// white when there is none.
pub open spec fn colour_from(name: Seq<char>, i: int, j: int) -> TailwindColour
    decreases 22 - i, 11 - j,
{
    if i < 0 || i >= 22 {
        TailwindColour::White
    } else if j < 0 || j >= 11 {
        colour_from(name, i + 1, 0)
    } else if name == colour_name(palette_at(i), shade_at(j)) {
        TailwindColour::Named { palette: palette_at(i), shade: shade_at(j) }
    } else {
        colour_from(name, i, j + 1)
    }
}

/// The palette names are made of letters: none holds the hyphen of a colour name.
proof fn lemma_palette_names_have_no_hyphen(p: Palette)
    ensures
        forall|i: int| 0 <= i < palette_name(p).len() ==> palette_name(p)[i] != '-',
{
    reveal_strlit("amber");
    assert("amber"@.len() == 5 && "amber"@[0] == 'a' && "amber"@[1] == 'm' && "amber"@[2] == 'b' && "amber"@[3] == 'e' && "amber"@[4] == 'r');
    reveal_strlit("blue");
    assert("blue"@.len() == 4 && "blue"@[0] == 'b' && "blue"@[1] == 'l' && "blue"@[2] == 'u' && "blue"@[3] == 'e');
    reveal_strlit("cyan");
    assert("cyan"@.len() == 4 && "cyan"@[0] == 'c' && "cyan"@[1] == 'y' && "cyan"@[2] == 'a' && "cyan"@[3] == 'n');
    reveal_strlit("emerald");
    assert("emerald"@.len() == 7 && "emerald"@[0] == 'e' && "emerald"@[1] == 'm' && "emerald"@[2] == 'e' && "emerald"@[3] == 'r' && "emerald"@[4] == 'a' && "emerald"@[5] == 'l' && "emerald"@[6] == 'd');
    reveal_strlit("fuchsia");
    assert("fuchsia"@.len() == 7 && "fuchsia"@[0] == 'f' && "fuchsia"@[1] == 'u' && "fuchsia"@[2] == 'c' && "fuchsia"@[3] == 'h' && "fuchsia"@[4] == 's' && "fuchsia"@[5] == 'i' && "fuchsia"@[6] == 'a');
    reveal_strlit("gray");
    assert("gray"@.len() == 4 && "gray"@[0] == 'g' && "gray"@[1] == 'r' && "gray"@[2] == 'a' && "gray"@[3] == 'y');
    reveal_strlit("green");
    assert("green"@.len() == 5 && "green"@[0] == 'g' && "green"@[1] == 'r' && "green"@[2] == 'e' && "green"@[3] == 'e' && "green"@[4] == 'n');
    reveal_strlit("indigo");
    assert("indigo"@.len() == 6 && "indigo"@[0] == 'i' && "indigo"@[1] == 'n' && "indigo"@[2] == 'd' && "indigo"@[3] == 'i' && "indigo"@[4] == 'g' && "indigo"@[5] == 'o');
    reveal_strlit("lime");
    assert("lime"@.len() == 4 && "lime"@[0] == 'l' && "lime"@[1] == 'i' && "lime"@[2] == 'm' && "lime"@[3] == 'e');
    reveal_strlit("neutral");
    assert("neutral"@.len() == 7 && "neutral"@[0] == 'n' && "neutral"@[1] == 'e' && "neutral"@[2] == 'u' && "neutral"@[3] == 't' && "neutral"@[4] == 'r' && "neutral"@[5] == 'a' && "neutral"@[6] == 'l');
    reveal_strlit("orange");
    assert("orange"@.len() == 6 && "orange"@[0] == 'o' && "orange"@[1] == 'r' && "orange"@[2] == 'a' && "orange"@[3] == 'n' && "orange"@[4] == 'g' && "orange"@[5] == 'e');
    reveal_strlit("pink");
    assert("pink"@.len() == 4 && "pink"@[0] == 'p' && "pink"@[1] == 'i' && "pink"@[2] == 'n' && "pink"@[3] == 'k');
    reveal_strlit("purple");
    assert("purple"@.len() == 6 && "purple"@[0] == 'p' && "purple"@[1] == 'u' && "purple"@[2] == 'r' && "purple"@[3] == 'p' && "purple"@[4] == 'l' && "purple"@[5] == 'e');
    reveal_strlit("red");
    assert("red"@.len() == 3 && "red"@[0] == 'r' && "red"@[1] == 'e' && "red"@[2] == 'd');
    reveal_strlit("rose");
    assert("rose"@.len() == 4 && "rose"@[0] == 'r' && "rose"@[1] == 'o' && "rose"@[2] == 's' && "rose"@[3] == 'e');
    reveal_strlit("sky");
    assert("sky"@.len() == 3 && "sky"@[0] == 's' && "sky"@[1] == 'k' && "sky"@[2] == 'y');
    reveal_strlit("slate");
    assert("slate"@.len() == 5 && "slate"@[0] == 's' && "slate"@[1] == 'l' && "slate"@[2] == 'a' && "slate"@[3] == 't' && "slate"@[4] == 'e');
    reveal_strlit("stone");
    assert("stone"@.len() == 5 && "stone"@[0] == 's' && "stone"@[1] == 't' && "stone"@[2] == 'o' && "stone"@[3] == 'n' && "stone"@[4] == 'e');
    reveal_strlit("teal");
    assert("teal"@.len() == 4 && "teal"@[0] == 't' && "teal"@[1] == 'e' && "teal"@[2] == 'a' && "teal"@[3] == 'l');
    reveal_strlit("violet");
    assert("violet"@.len() == 6 && "violet"@[0] == 'v' && "violet"@[1] == 'i' && "violet"@[2] == 'o' && "violet"@[3] == 'l' && "violet"@[4] == 'e' && "violet"@[5] == 't');
    reveal_strlit("yellow");
    assert("yellow"@.len() == 6 && "yellow"@[0] == 'y' && "yellow"@[1] == 'e' && "yellow"@[2] == 'l' && "yellow"@[3] == 'l' && "yellow"@[4] == 'o' && "yellow"@[5] == 'w');
    reveal_strlit("zinc");
    assert("zinc"@.len() == 4 && "zinc"@[0] == 'z' && "zinc"@[1] == 'i' && "zinc"@[2] == 'n' && "zinc"@[3] == 'c');
}

/// The shade names are made of digits: none holds a hyphen.
proof fn lemma_shade_names_have_no_hyphen(s: Shade)
    ensures
        forall|i: int| 0 <= i < shade_name(s).len() ==> shade_name(s)[i] != '-',
{
    reveal_strlit("50");
    assert("50"@.len() == 2 && "50"@[0] == '5' && "50"@[1] == '0');
    reveal_strlit("100");
    assert("100"@.len() == 3 && "100"@[0] == '1' && "100"@[1] == '0' && "100"@[2] == '0');
    reveal_strlit("200");
    assert("200"@.len() == 3 && "200"@[0] == '2' && "200"@[1] == '0' && "200"@[2] == '0');
    reveal_strlit("300");
    assert("300"@.len() == 3 && "300"@[0] == '3' && "300"@[1] == '0' && "300"@[2] == '0');
    reveal_strlit("400");
    assert("400"@.len() == 3 && "400"@[0] == '4' && "400"@[1] == '0' && "400"@[2] == '0');
    reveal_strlit("500");
    assert("500"@.len() == 3 && "500"@[0] == '5' && "500"@[1] == '0' && "500"@[2] == '0');
    reveal_strlit("600");
    assert("600"@.len() == 3 && "600"@[0] == '6' && "600"@[1] == '0' && "600"@[2] == '0');
    reveal_strlit("700");
    assert("700"@.len() == 3 && "700"@[0] == '7' && "700"@[1] == '0' && "700"@[2] == '0');
    reveal_strlit("800");
    assert("800"@.len() == 3 && "800"@[0] == '8' && "800"@[1] == '0' && "800"@[2] == '0');
    reveal_strlit("900");
    assert("900"@.len() == 3 && "900"@[0] == '9' && "900"@[1] == '0' && "900"@[2] == '0');
    reveal_strlit("950");
    assert("950"@.len() == 3 && "950"@[0] == '9' && "950"@[1] == '5' && "950"@[2] == '0');
}

/// No two palettes share a name.
proof fn lemma_palette_name_injective(p: Palette, q: Palette)
    requires
        palette_name(p) == palette_name(q),
    ensures
        p == q,
{
    // Each name's length and first two letters tell it from the others.
    reveal_strlit("amber");
    assert("amber"@.len() == 5 && "amber"@[0] == 'a' && "amber"@[1] == 'm');
    reveal_strlit("blue");
    assert("blue"@.len() == 4 && "blue"@[0] == 'b' && "blue"@[1] == 'l');
    reveal_strlit("cyan");
    assert("cyan"@.len() == 4 && "cyan"@[0] == 'c' && "cyan"@[1] == 'y');
    reveal_strlit("emerald");
    assert("emerald"@.len() == 7 && "emerald"@[0] == 'e' && "emerald"@[1] == 'm');
    reveal_strlit("fuchsia");
    assert("fuchsia"@.len() == 7 && "fuchsia"@[0] == 'f' && "fuchsia"@[1] == 'u');
    reveal_strlit("gray");
    assert("gray"@.len() == 4 && "gray"@[0] == 'g' && "gray"@[1] == 'r');
    reveal_strlit("green");
    assert("green"@.len() == 5 && "green"@[0] == 'g' && "green"@[1] == 'r');
    reveal_strlit("indigo");
    assert("indigo"@.len() == 6 && "indigo"@[0] == 'i' && "indigo"@[1] == 'n');
    reveal_strlit("lime");
    assert("lime"@.len() == 4 && "lime"@[0] == 'l' && "lime"@[1] == 'i');
    reveal_strlit("neutral");
    assert("neutral"@.len() == 7 && "neutral"@[0] == 'n' && "neutral"@[1] == 'e');
    reveal_strlit("orange");
    assert("orange"@.len() == 6 && "orange"@[0] == 'o' && "orange"@[1] == 'r');
    reveal_strlit("pink");
    assert("pink"@.len() == 4 && "pink"@[0] == 'p' && "pink"@[1] == 'i');
    reveal_strlit("purple");
    assert("purple"@.len() == 6 && "purple"@[0] == 'p' && "purple"@[1] == 'u');
    reveal_strlit("red");
    assert("red"@.len() == 3 && "red"@[0] == 'r' && "red"@[1] == 'e');
    reveal_strlit("rose");
    assert("rose"@.len() == 4 && "rose"@[0] == 'r' && "rose"@[1] == 'o');
    reveal_strlit("sky");
    assert("sky"@.len() == 3 && "sky"@[0] == 's' && "sky"@[1] == 'k');
    reveal_strlit("slate");
    assert("slate"@.len() == 5 && "slate"@[0] == 's' && "slate"@[1] == 'l');
    reveal_strlit("stone");
    assert("stone"@.len() == 5 && "stone"@[0] == 's' && "stone"@[1] == 't');
    reveal_strlit("teal");
    assert("teal"@.len() == 4 && "teal"@[0] == 't' && "teal"@[1] == 'e');
    reveal_strlit("violet");
    assert("violet"@.len() == 6 && "violet"@[0] == 'v' && "violet"@[1] == 'i');
    reveal_strlit("yellow");
    assert("yellow"@.len() == 6 && "yellow"@[0] == 'y' && "yellow"@[1] == 'e');
    reveal_strlit("zinc");
    assert("zinc"@.len() == 4 && "zinc"@[0] == 'z' && "zinc"@[1] == 'i');
}

/// No two shades share a name.
proof fn lemma_shade_name_injective(s: Shade, t: Shade)
    requires
        shade_name(s) == shade_name(t),
    ensures
        s == t,
{
    reveal_strlit("50");
    assert("50"@.len() == 2 && "50"@[0] == '5' && "50"@[1] == '0');
    reveal_strlit("100");
    assert("100"@.len() == 3 && "100"@[0] == '1' && "100"@[1] == '0' && "100"@[2] == '0');
    reveal_strlit("200");
    assert("200"@.len() == 3 && "200"@[0] == '2' && "200"@[1] == '0' && "200"@[2] == '0');
    reveal_strlit("300");
    assert("300"@.len() == 3 && "300"@[0] == '3' && "300"@[1] == '0' && "300"@[2] == '0');
    reveal_strlit("400");
    assert("400"@.len() == 3 && "400"@[0] == '4' && "400"@[1] == '0' && "400"@[2] == '0');
    reveal_strlit("500");
    assert("500"@.len() == 3 && "500"@[0] == '5' && "500"@[1] == '0' && "500"@[2] == '0');
    reveal_strlit("600");
    assert("600"@.len() == 3 && "600"@[0] == '6' && "600"@[1] == '0' && "600"@[2] == '0');
    reveal_strlit("700");
    assert("700"@.len() == 3 && "700"@[0] == '7' && "700"@[1] == '0' && "700"@[2] == '0');
    reveal_strlit("800");
    assert("800"@.len() == 3 && "800"@[0] == '8' && "800"@[1] == '0' && "800"@[2] == '0');
    reveal_strlit("900");
    assert("900"@.len() == 3 && "900"@[0] == '9' && "900"@[1] == '0' && "900"@[2] == '0');
    reveal_strlit("950");
    assert("950"@.len() == 3 && "950"@[0] == '9' && "950"@[1] == '5' && "950"@[2] == '0');
}

/// No two colours share a name: the palette ends at the only hyphen.
proof fn lemma_colour_name_injective(p: Palette, s: Shade, q: Palette, t: Shade)
    requires
        colour_name(p, s) == colour_name(q, t),
    ensures
        p == q,
        s == t,
{
    reveal_strlit("-");
    assert("-"@.len() == 1 && "-"@[0] == '-');
    lemma_palette_names_have_no_hyphen(p);
    lemma_palette_names_have_no_hyphen(q);
    let n = colour_name(p, s);
    let a = palette_name(p);
    let b = palette_name(q);
    assert(n[a.len() as int] == '-');
    assert(colour_name(q, t)[b.len() as int] == '-');
    if a.len() < b.len() {
        assert(colour_name(q, t)[a.len() as int] == b[a.len() as int]);
    }
    if b.len() < a.len() {
        assert(n[b.len() as int] == a[b.len() as int]);
    }
    assert(a.len() == b.len());
    assert(a =~= n.subrange(0, a.len() as int));
    assert(b =~= colour_name(q, t).subrange(0, b.len() as int));
    lemma_palette_name_injective(p, q);
    assert(shade_name(s) =~= n.subrange(a.len() as int + 1, n.len() as int));
    assert(shade_name(t) =~= colour_name(q, t).subrange(b.len() as int + 1, n.len() as int));
    lemma_shade_name_injective(s, t);
}

proof fn lemma_scan_finds_colour(name: Seq<char>, p: Palette, s: Shade, i: int, j: int)
    requires
        name == colour_name(p, s),
        0 <= i <= palette_index(p),
        0 <= j <= 11,
        i == palette_index(p) ==> j <= shade_index(s),
    ensures
        colour_from(name, i, j) == (TailwindColour::Named { palette: p, shade: s }),
    decreases 22 - i, 11 - j,
{
    lemma_palette_index(p);
    lemma_shade_index(s);
    if j >= 11 {
        lemma_scan_finds_colour(name, p, s, i + 1, 0);
    } else if name == colour_name(palette_at(i), shade_at(j)) {
        lemma_colour_name_injective(p, s, palette_at(i), shade_at(j));
    } else {
        lemma_scan_finds_colour(name, p, s, i, j + 1);
    }
}

/// Law: every tailwind colour is read back from its name: `<palette>-<shade>` names
/// that palette and shade, and no other colour.
pub proof fn colour_names_read_back(p: Palette, s: Shade)
    ensures
        tailwind_colour_of(colour_name(p, s)) == (TailwindColour::Named { palette: p, shade: s }),
        forall|q: Palette, t: Shade| #[trigger] colour_name(q, t) == colour_name(p, s) ==> q == p && t == s,
{
    lemma_scan_finds_colour(colour_name(p, s), p, s, 0, 0);
    assert forall|q: Palette, t: Shade| #[trigger] colour_name(q, t) == colour_name(p, s) implies q == p && t == s by {
        lemma_colour_name_injective(q, t, p, s);
    }
}

/// The colour that a lower-case `name` names (white for none).
pub open spec fn tailwind_colour_of(name: Seq<char>) -> TailwindColour {
    colour_from(name, 0, 0)
}

/// The tailwind colour that an already lower-case `name` names; white when it names none.
pub fn tailwind_from_lowercase(name: &str) -> (c: TailwindColour)
    ensures
        names_colour(name@, c),
        c == tailwind_colour_of(name@),
{
    let mut i: usize = 0;
    while i < 22
        invariant
            i <= 22,
            forall|a: int, b: int| 0 <= a < i && 0 <= b < 11 ==> name@ != #[trigger] colour_name(palette_at(a), shade_at(b)),
            colour_from(name@, i as int, 0) == tailwind_colour_of(name@),
        decreases 22 - i,
    {
        let p = palette_from_index(i);
        let mut j: usize = 0;
        while j < 11
            invariant
                i < 22,
                j <= 11,
                p == palette_at(i as int),
                forall|a: int, b: int| 0 <= a < i && 0 <= b < 11 ==> name@ != #[trigger] colour_name(palette_at(a), shade_at(b)),
                forall|b: int| 0 <= b < j ==> name@ != #[trigger] colour_name(p, shade_at(b)),
                colour_from(name@, i as int, j as int) == tailwind_colour_of(name@),
            decreases 11 - j,
        {
            let s = shade_from_index(j);
            let mut candidate = String::from_str(palette_str(p));
            candidate.append("-");
            candidate.append(shade_str(s));
            if str_eq(name, candidate.as_str()) {
                return TailwindColour::Named { palette: p, shade: s };
            }
            j = j + 1;
        }
        assert(colour_from(name@, i as int, 11) == colour_from(name@, i + 1, 0));
        i = i + 1;
    }
    proof {
        assert forall|p: Palette, s: Shade| name@ != #[trigger] colour_name(p, s) by {
            lemma_palette_index(p);
            lemma_shade_index(s);
            assert(name@ != colour_name(palette_at(palette_index(p)), shade_at(shade_index(s))));
        }
    }
    TailwindColour::White
}

/// The tailwind colour that `name` names, read without regard to case
/// (`"Blue-500"` names blue 500); white for any other name.
pub fn parse_tailwind_color(name: &str) -> (c: TailwindColour)
    ensures
        names_colour(lowercase_of(name@), c),
        c == tailwind_colour_of(lowercase_of(name@)),
{
    let lower = lowercase(name);
    tailwind_from_lowercase(lower.as_str())
}

/// The value of an ASCII hexadecimal digit (either case), if `b` is one.
pub open spec fn hex_digit(b: u8) -> Option<nat> {
    if 48 <= b <= 57 {
        Some((b - 48) as nat)
    } else if 97 <= b <= 102 {
        Some((b - 87) as nat)
    } else if 65 <= b <= 70 {
        Some((b - 55) as nat)
    } else {
        None
    }
}

/// The value of a string of hexadecimal digits, most significant first (0 for no digits);
/// `None` when some byte is not a digit.
pub open spec fn hex_digits(s: Seq<u8>) -> Option<nat>
    decreases s.len(),
{
    if s.len() == 0 {
        Some(0)
    } else {
        match (hex_digits(s.drop_last()), hex_digit(s.last())) {
            (Some(high), Some(low)) => Some(high * 16 + low),
            _ => None,
        }
    }
}

/// What `u32::from_str_radix(s, 16)` gives on a short string: an optional leading `+`
/// followed by at least one hexadecimal digit, and nothing else.
pub open spec fn radix16(s: Seq<u8>) -> Option<nat> {
    if s.len() == 0 {
        None
    } else if s[0] == 43 {
        if s.len() == 1 {
            None
        } else {
            hex_digits(s.drop_first())
        }
    } else {
        hex_digits(s)
    }
}

/// The red, green and blue bytes of a `#RRGGBB` colour: exactly seven bytes, the first
/// `#`; a body that does not parse reads as grey `0x808080`. `None` for anything else
/// (the caller then uses its fallback grey).
pub open spec fn hex_colour(bytes: Seq<u8>) -> Option<(u8, u8, u8)> {
    if bytes.len() == 7 && bytes[0] == 35 {
        let v: nat = match radix16(bytes.subrange(1, 7)) {
            Some(v) => v,
            None => 0x808080,
        };
        Some((((v / 65536) % 256) as u8, ((v / 256) % 256) as u8, (v % 256) as u8))
    } else {
        None
    }
}

/// The byte of hexadecimal digit `d` (below 16): `0`-`9`, then `A`-`F` when `upper`,
/// else `a`-`f`.
pub open spec fn hex_digit_byte(d: nat, upper: bool) -> u8 {
    if d < 10 {
        (48 + d) as u8
    } else if upper {
        (55 + d) as u8
    } else {
        (87 + d) as u8
    }
}

/// The text `#RRGGBB` of a colour, each byte as two hexadecimal digits (as
/// `format!("#{:02X}{:02X}{:02X}", r, g, b)` writes it when `upper`, and `{:02x}` when
/// not), as bytes.
pub open spec fn hex_text(r: u8, g: u8, b: u8, upper: bool) -> Seq<u8> {
    seq![
        35u8,
        hex_digit_byte((r / 16) as nat, upper),
        hex_digit_byte((r % 16) as nat, upper),
        hex_digit_byte((g / 16) as nat, upper),
        hex_digit_byte((g % 16) as nat, upper),
        hex_digit_byte((b / 16) as nat, upper),
        hex_digit_byte((b % 16) as nat, upper),
    ]
}

proof fn lemma_hex_digit_byte(d: nat, upper: bool)
    requires
        d < 16,
    ensures
        hex_digit(hex_digit_byte(d, upper)) == Some(d),
        hex_digit_byte(d, upper) != 43,
{
}

proof fn lemma_bytes_from_digits(r: u8, g: u8, b: u8, v: nat)
    requires
        v == ((((((r / 16) as nat * 16 + (r % 16) as nat) * 16 + (g / 16) as nat) * 16 + (g % 16) as nat) * 16
            + (b / 16) as nat) * 16 + (b % 16) as nat),
    ensures
        (v / 65536) % 256 == r,
        (v / 256) % 256 == g,
        v % 256 == b,
{
    let r1 = (r / 16) as nat;
    let r0 = (r % 16) as nat;
    let g1 = (g / 16) as nat;
    let g0 = (g % 16) as nat;
    let b1 = (b / 16) as nat;
    let b0 = (b % 16) as nat;
    assert(r1 * 16 + r0 == r && g1 * 16 + g0 == g && b1 * 16 + b0 == b);
    assert(v == r * 65536 + g * 256 + b) by (nonlinear_arith)
        requires
            v == (((((r1 * 16 + r0) * 16 + g1) * 16 + g0) * 16 + b1) * 16 + b0),
            r1 * 16 + r0 == r,
            g1 * 16 + g0 == g,
            b1 * 16 + b0 == b,
    ;
    assert((v / 65536) % 256 == r && (v / 256) % 256 == g && v % 256 == b) by (nonlinear_arith)
        requires
            v == r * 65536 + g * 256 + b,
            r < 256,
            g < 256,
            b < 256,
    ;
}

proof fn lemma_hex_digits_step(s: Seq<u8>, k: int, acc: nat)
    requires
        0 <= k < s.len(),
        hex_digits(s.subrange(0, k)) == Some(acc),
        hex_digit(s[k]) is Some,
    ensures
        hex_digits(s.subrange(0, k + 1)) == Some(acc * 16 + hex_digit(s[k])->0),
{
    let next = s.subrange(0, k + 1);
    assert(next.drop_last() == s.subrange(0, k));
    assert(next.last() == s[k]);
}

/// Law: a colour written as `#RRGGBB`, with upper-case or lower-case digits, reads back
/// as the same three bytes.
pub proof fn formatted_colours_read_back(r: u8, g: u8, b: u8, upper: bool)
    ensures
        hex_colour(hex_text(r, g, b, upper)) == Some((r, g, b)),
{
    let t = hex_text(r, g, b, upper);
    let body = t.subrange(1, 7);
    let ds = seq![
        (r / 16) as nat,
        (r % 16) as nat,
        (g / 16) as nat,
        (g % 16) as nat,
        (b / 16) as nat,
        (b % 16) as nat,
    ];
    assert forall|i: int| 0 <= i < 6 implies hex_digit(#[trigger] body[i]) == Some(ds[i]) && body[i] != 43 by {
        lemma_hex_digit_byte(ds[i], upper);
    }
    assert(hex_digits(body.subrange(0, 0)) == Some(0nat));
    let v1 = ds[0];
    let v2 = v1 * 16 + ds[1];
    let v3 = v2 * 16 + ds[2];
    let v4 = v3 * 16 + ds[3];
    let v5 = v4 * 16 + ds[4];
    let v6 = v5 * 16 + ds[5];
    lemma_hex_digits_step(body, 0, 0);
    lemma_hex_digits_step(body, 1, v1);
    lemma_hex_digits_step(body, 2, v2);
    lemma_hex_digits_step(body, 3, v3);
    lemma_hex_digits_step(body, 4, v4);
    lemma_hex_digits_step(body, 5, v5);
    let acc = v6;
    assert(body.subrange(0, 6) == body);
    assert(body[0] != 43) by {
        lemma_hex_digit_byte(ds[0], upper);
    }
    assert(radix16(body) == Some(acc));
    lemma_bytes_from_digits(r, g, b, acc);
}

/// Sixteen to the power `n`.
pub open spec fn pow16(n: nat) -> nat
    decreases n,
{
    if n == 0 {
        1
    } else {
        16 * pow16((n - 1) as nat)
    }
}

proof fn lemma_hex_digits_bound(s: Seq<u8>)
    ensures
        hex_digits(s) matches Some(v) ==> v < pow16(s.len()),
    decreases s.len(),
{
    if s.len() > 0 {
        lemma_hex_digits_bound(s.drop_last());
        if let Some(v) = hex_digits(s) {
            let high = hex_digits(s.drop_last())->0;
            let p = pow16((s.len() - 1) as nat);
            assert(high * 16 + 15 < p * 16) by (nonlinear_arith)
                requires
                    high < p,
            ;
        }
    }
}

proof fn lemma_hex_none_extends(s: Seq<u8>, n: int)
    requires
        0 <= n <= s.len(),
        hex_digits(s.subrange(0, n)) is None,
    ensures
        hex_digits(s) is None,
    decreases s.len() - n,
{
    if s.len() == n {
        assert(s.subrange(0, n) == s);
    } else {
        assert(s.drop_last().subrange(0, n) == s.subrange(0, n));
        lemma_hex_none_extends(s.drop_last(), n);
    }
}

proof fn lemma_pow16_small(n: nat)
    requires
        n <= 5,
    ensures
        pow16(n) <= 1048576,
{
    reveal_with_fuel(pow16, 6);
}

fn hex_digit_exec(b: u8) -> (d: Option<u32>)
    ensures
        d matches Some(v) ==> hex_digit(b) == Some(v as nat),
        d is None ==> hex_digit(b) is None,
{
    if 48 <= b && b <= 57 {
        Some((b - 48) as u32)
    } else if 97 <= b && b <= 102 {
        Some((b - 87) as u32)
    } else if 65 <= b && b <= 70 {
        Some((b - 55) as u32)
    } else {
        None
    }
}

/// Parses `bytes[from..to]` as hexadecimal digits.
fn hex_digits_exec(bytes: &[u8], from: usize, to: usize) -> (v: Option<u32>)
    requires
        from <= to <= bytes@.len(),
        to - from <= 6,
    ensures
        v matches Some(x) ==> hex_digits(bytes@.subrange(from as int, to as int)) == Some(x as nat),
        v is None ==> hex_digits(bytes@.subrange(from as int, to as int)) is None,
{
    let mut acc: u32 = 0;
    let mut k: usize = from;
    proof {
        assert(bytes@.subrange(from as int, from as int).len() == 0);
    }
    while k < to
        invariant
            from <= k <= to <= bytes@.len(),
            to - from <= 6,
            hex_digits(bytes@.subrange(from as int, k as int)) == Some(acc as nat),
        decreases to - k,
    {
        let ghost prefix = bytes@.subrange(from as int, k as int);
        let ghost next = bytes@.subrange(from as int, k + 1);
        proof {
            assert(next.drop_last() == prefix);
            assert(next.last() == bytes@[k as int]);
            lemma_hex_digits_bound(prefix);
            lemma_pow16_small(prefix.len());
        }
        match hex_digit_exec(bytes[k]) {
            Some(d) => {
                acc = acc * 16 + d;
            },
            None => {
                proof {
                    let whole = bytes@.subrange(from as int, to as int);
                    assert(whole.subrange(0, k + 1 - from) == next);
                    lemma_hex_none_extends(whole, k + 1 - from);
                }
                return None;
            },
        }
        k = k + 1;
    }
    Some(acc)
}

/// Reads a `#RRGGBB` colour into its red, green and blue bytes; a body that
/// `u32::from_str_radix(.., 16)` rejects reads as grey `0x808080`. `None` when the text
/// is not seven bytes starting with `#`; the caller then falls back to a grey.
pub fn parse_hex_color(col_str: &str) -> (rgb: Option<(u8, u8, u8)>)
    ensures
        rgb == hex_colour(col_str.spec_bytes()),
{
    let bytes = col_str.as_bytes();
    if bytes.len() == 7 && bytes[0] == 35 {
        let ghost body = bytes@.subrange(1, 7);
        let parsed: Option<u32> = if bytes[1] == 43 {
            proof {
                assert(body.drop_first() == bytes@.subrange(2, 7));
            }
            hex_digits_exec(bytes, 2, 7)
        } else {
            hex_digits_exec(bytes, 1, 7)
        };
        let v: u32 = match parsed {
            Some(v) => v,
            None => 0x808080,
        };
        proof {
            assert(radix16(body) == (match parsed { Some(x) => Some(x as nat), None => None::<nat> }));
        }
        Some((((v / 65536) % 256) as u8, ((v / 256) % 256) as u8, (v % 256) as u8))
    } else {
        None
    }
}

} // verus!
