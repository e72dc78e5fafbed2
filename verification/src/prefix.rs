//! The sixteen scale prefixes and their names.

use vstd::prelude::*;

verus! {

/// A numeric prefix, either binary or decimal.
#[derive(PartialEq, Eq, Clone, Copy, Debug)]
pub enum Prefix {
    Kilo,
    Mega,
    Giga,
    Tera,
    Peta,
    Exa,
    Zetta,
    Yotta,
    Kibi,
    /// The prefix of 1024 * 1024, whose name is mebi.
    Mibi,
    Gibi,
    Tebi,
    Pebi,
    Exbi,
    Zebi,
    Yobi,
}

/// The eight decimal prefixes, smallest first.
pub open spec fn decimal_prefixes() -> Seq<Prefix> {
    seq![
        Prefix::Kilo,
        Prefix::Mega,
        Prefix::Giga,
        Prefix::Tera,
        Prefix::Peta,
        Prefix::Exa,
        Prefix::Zetta,
        Prefix::Yotta,
    ]
}

/// The eight binary prefixes, smallest first.
pub open spec fn binary_prefixes() -> Seq<Prefix> {
    seq![
        Prefix::Kibi,
        Prefix::Mibi,
        Prefix::Gibi,
        Prefix::Tebi,
        Prefix::Pebi,
        Prefix::Exbi,
        Prefix::Zebi,
        Prefix::Yobi,
    ]
}

impl Prefix {
    /// Whether this prefix counts in powers of 1024 rather than powers of 1000.
    pub open spec fn is_binary(self) -> bool {
        match self {
            Prefix::Kibi
            | Prefix::Mibi
            | Prefix::Gibi
            | Prefix::Tebi
            | Prefix::Pebi
            | Prefix::Exbi
            | Prefix::Zebi
            | Prefix::Yobi => true,
            _ => false,
        }
    }

    /// The power of the base that this prefix stands for, from 1 (kilo, kibi)
    /// to 8 (yotta, yobi).
    pub open spec fn rank(self) -> nat {
        match self {
            Prefix::Kilo | Prefix::Kibi => 1,
            Prefix::Mega | Prefix::Mibi => 2,
            Prefix::Giga | Prefix::Gibi => 3,
            Prefix::Tera | Prefix::Tebi => 4,
            Prefix::Peta | Prefix::Pebi => 5,
            Prefix::Exa | Prefix::Exbi => 6,
            Prefix::Zetta | Prefix::Zebi => 7,
            Prefix::Yotta | Prefix::Yobi => 8,
        }
    }

    /// The multiplier that one step of this prefix's family stands for.
    pub open spec fn base(self) -> nat {
        if self.is_binary() {
            1024
        } else {
            1000
        }
    }
}

/// Formatting methods for prefix, for when you want to output things other
/// than just the short-hand symbols.
pub trait PrefixNames {
    /// The characters of the name in uppercase.
    spec fn upper_spec(&self) -> Seq<char>;

    /// The characters of the name with the first letter capitalised.
    spec fn caps_spec(&self) -> Seq<char>;

    /// The characters of the name in lowercase.
    spec fn lower_spec(&self) -> Seq<char>;

    /// The characters of the short-hand symbol.
    spec fn symbol_spec(&self) -> Seq<char>;

    /// Returns the name in uppercase, such as "KILO".
    fn upper(&self) -> (name: &'static str)
        ensures
            name@ == self.upper_spec(),
    ;

    /// Returns the name with the first letter capitalised, such as "Mega".
    fn caps(&self) -> (name: &'static str)
        ensures
            name@ == self.caps_spec(),
    ;

    /// Returns the name in lowercase, such as "giga".
    fn lower(&self) -> (name: &'static str)
        ensures
            name@ == self.lower_spec(),
    ;

    /// Returns the short-hand symbol, such as "T" (for "tera").
    fn symbol(&self) -> (name: &'static str)
        ensures
            name@ == self.symbol_spec(),
    ;
}

impl PrefixNames for Prefix {
    open spec fn upper_spec(&self) -> Seq<char> {
        match *self {
            Prefix::Kilo => "KILO"@,
            Prefix::Mega => "MEGA"@,
            Prefix::Giga => "GIGA"@,
            Prefix::Tera => "TERA"@,
            Prefix::Peta => "PETA"@,
            Prefix::Exa => "EXA"@,
            Prefix::Zetta => "ZETTA"@,
            Prefix::Yotta => "YOTTA"@,
            Prefix::Kibi => "KIBI"@,
            Prefix::Mibi => "MEBI"@,
            Prefix::Gibi => "GIBI"@,
            Prefix::Tebi => "TEBI"@,
            Prefix::Pebi => "PEBI"@,
            Prefix::Exbi => "EXBI"@,
            Prefix::Zebi => "ZEBI"@,
            Prefix::Yobi => "YOBI"@,
        }
    }

    open spec fn caps_spec(&self) -> Seq<char> {
        match *self {
            Prefix::Kilo => "Kilo"@,
            Prefix::Mega => "Mega"@,
            Prefix::Giga => "Giga"@,
            Prefix::Tera => "Tera"@,
            Prefix::Peta => "Peta"@,
            Prefix::Exa => "Exa"@,
            Prefix::Zetta => "Zetta"@,
            Prefix::Yotta => "Yotta"@,
            Prefix::Kibi => "Kibi"@,
            Prefix::Mibi => "Mebi"@,
            Prefix::Gibi => "Gibi"@,
            Prefix::Tebi => "Tebi"@,
            Prefix::Pebi => "Pebi"@,
            Prefix::Exbi => "Exbi"@,
            Prefix::Zebi => "Zebi"@,
            Prefix::Yobi => "Yobi"@,
        }
    }

    open spec fn lower_spec(&self) -> Seq<char> {
        match *self {
            Prefix::Kilo => "kilo"@,
            Prefix::Mega => "mega"@,
            Prefix::Giga => "giga"@,
            Prefix::Tera => "tera"@,
            Prefix::Peta => "peta"@,
            Prefix::Exa => "exa"@,
            Prefix::Zetta => "zetta"@,
            Prefix::Yotta => "yotta"@,
            Prefix::Kibi => "kibi"@,
            Prefix::Mibi => "mebi"@,
            Prefix::Gibi => "gibi"@,
            Prefix::Tebi => "tebi"@,
            Prefix::Pebi => "pebi"@,
            Prefix::Exbi => "exbi"@,
            Prefix::Zebi => "zebi"@,
            Prefix::Yobi => "yobi"@,
        }
    }

    open spec fn symbol_spec(&self) -> Seq<char> {
        match *self {
            Prefix::Kilo => "k"@,
            Prefix::Mega => "M"@,
            Prefix::Giga => "G"@,
            Prefix::Tera => "T"@,
            Prefix::Peta => "P"@,
            Prefix::Exa => "E"@,
            Prefix::Zetta => "Z"@,
            Prefix::Yotta => "Y"@,
            Prefix::Kibi => "Ki"@,
            Prefix::Mibi => "Mi"@,
            Prefix::Gibi => "Gi"@,
            Prefix::Tebi => "Ti"@,
            Prefix::Pebi => "Pi"@,
            Prefix::Exbi => "Ei"@,
            Prefix::Zebi => "Zi"@,
            Prefix::Yobi => "Yi"@,
        }
    }

    fn upper(&self) -> (name: &'static str) {
        match *self {
            Prefix::Kilo => "KILO",
            Prefix::Mega => "MEGA",
            Prefix::Giga => "GIGA",
            Prefix::Tera => "TERA",
            Prefix::Peta => "PETA",
            Prefix::Exa => "EXA",
            Prefix::Zetta => "ZETTA",
            Prefix::Yotta => "YOTTA",
            Prefix::Kibi => "KIBI",
            Prefix::Mibi => "MEBI",
            Prefix::Gibi => "GIBI",
            Prefix::Tebi => "TEBI",
            Prefix::Pebi => "PEBI",
            Prefix::Exbi => "EXBI",
            Prefix::Zebi => "ZEBI",
            Prefix::Yobi => "YOBI",
        }
    }

    fn caps(&self) -> (name: &'static str) {
        match *self {
            Prefix::Kilo => "Kilo",
            Prefix::Mega => "Mega",
            Prefix::Giga => "Giga",
            Prefix::Tera => "Tera",
            Prefix::Peta => "Peta",
            Prefix::Exa => "Exa",
            Prefix::Zetta => "Zetta",
            Prefix::Yotta => "Yotta",
            Prefix::Kibi => "Kibi",
            Prefix::Mibi => "Mebi",
            Prefix::Gibi => "Gibi",
            Prefix::Tebi => "Tebi",
            Prefix::Pebi => "Pebi",
            Prefix::Exbi => "Exbi",
            Prefix::Zebi => "Zebi",
            Prefix::Yobi => "Yobi",
        }
    }

    fn lower(&self) -> (name: &'static str) {
        match *self {
            Prefix::Kilo => "kilo",
            Prefix::Mega => "mega",
            Prefix::Giga => "giga",
            Prefix::Tera => "tera",
            Prefix::Peta => "peta",
            Prefix::Exa => "exa",
            Prefix::Zetta => "zetta",
            Prefix::Yotta => "yotta",
            Prefix::Kibi => "kibi",
            Prefix::Mibi => "mebi",
            Prefix::Gibi => "gibi",
            Prefix::Tebi => "tebi",
            Prefix::Pebi => "pebi",
            Prefix::Exbi => "exbi",
            Prefix::Zebi => "zebi",
            Prefix::Yobi => "yobi",
        }
    }

    fn symbol(&self) -> (name: &'static str) {
        match *self {
            Prefix::Kilo => "k",
            Prefix::Mega => "M",
            Prefix::Giga => "G",
            Prefix::Tera => "T",
            Prefix::Peta => "P",
            Prefix::Exa => "E",
            Prefix::Zetta => "Z",
            Prefix::Yotta => "Y",
            Prefix::Kibi => "Ki",
            Prefix::Mibi => "Mi",
            Prefix::Gibi => "Gi",
            Prefix::Tebi => "Ti",
            Prefix::Pebi => "Pi",
            Prefix::Exbi => "Ei",
            Prefix::Zebi => "Zi",
            Prefix::Yobi => "Yi",
        }
    }
}

/// The prefix at the place `n` of either family has the rank `n`, counted
/// from 1, and the base of its family.
pub proof fn lemma_rank_in_family(n: nat)
    requires
        0 < n <= 8,
    ensures
        decimal_prefixes()[n - 1].rank() == n,
        !decimal_prefixes()[n - 1].is_binary(),
        binary_prefixes()[n - 1].rank() == n,
        binary_prefixes()[n - 1].is_binary(),
{
}

/// The capital of a small letter, and any other character as it is.
pub open spec fn capital(c: char) -> char {
    if 'a' <= c && c <= 'z' {
        ((c as u32) - 32) as char
    } else {
        c
    }
}

/// The four forms of a name hang together: the uppercase name is the
/// lowercase one in capitals, the capitalised name is the lowercase one with
/// its first letter a capital, and the symbol is the first letter of the
/// capitalised name, followed by an "i" in the binary family. The one
/// exception is the symbol of kilo, a small "k".
pub proof fn lemma_names_agree(prefix: Prefix)
    ensures
        prefix.upper_spec() == prefix.lower_spec().map_values(|c: char| capital(c)),
        prefix.caps_spec() == prefix.lower_spec().update(0, capital(prefix.lower_spec()[0])),
        prefix.symbol_spec() == (if prefix.is_binary() {
            seq![prefix.caps_spec()[0], 'i']
        } else if prefix == Prefix::Kilo {
            seq!['k']
        } else {
            seq![prefix.caps_spec()[0]]
        }),
{
    match prefix {
        Prefix::Kilo => {
            reveal_strlit("KILO");
            reveal_strlit("Kilo");
            reveal_strlit("kilo");
            reveal_strlit("k");
        },
        Prefix::Mega => {
            reveal_strlit("MEGA");
            reveal_strlit("Mega");
            reveal_strlit("mega");
            reveal_strlit("M");
        },
        Prefix::Giga => {
            reveal_strlit("GIGA");
            reveal_strlit("Giga");
            reveal_strlit("giga");
            reveal_strlit("G");
        },
        Prefix::Tera => {
            reveal_strlit("TERA");
            reveal_strlit("Tera");
            reveal_strlit("tera");
            reveal_strlit("T");
        },
        Prefix::Peta => {
            reveal_strlit("PETA");
            reveal_strlit("Peta");
            reveal_strlit("peta");
            reveal_strlit("P");
        },
        Prefix::Exa => {
            reveal_strlit("EXA");
            reveal_strlit("Exa");
            reveal_strlit("exa");
            reveal_strlit("E");
        },
        Prefix::Zetta => {
            reveal_strlit("ZETTA");
            reveal_strlit("Zetta");
            reveal_strlit("zetta");
            reveal_strlit("Z");
        },
        Prefix::Yotta => {
            reveal_strlit("YOTTA");
            reveal_strlit("Yotta");
            reveal_strlit("yotta");
            reveal_strlit("Y");
        },
        Prefix::Kibi => {
            reveal_strlit("KIBI");
            reveal_strlit("Kibi");
            reveal_strlit("kibi");
            reveal_strlit("Ki");
        },
        Prefix::Mibi => {
            reveal_strlit("MEBI");
            reveal_strlit("Mebi");
            reveal_strlit("mebi");
            reveal_strlit("Mi");
        },
        Prefix::Gibi => {
            reveal_strlit("GIBI");
            reveal_strlit("Gibi");
            reveal_strlit("gibi");
            reveal_strlit("Gi");
        },
        Prefix::Tebi => {
            reveal_strlit("TEBI");
            reveal_strlit("Tebi");
            reveal_strlit("tebi");
            reveal_strlit("Ti");
        },
        Prefix::Pebi => {
            reveal_strlit("PEBI");
            reveal_strlit("Pebi");
            reveal_strlit("pebi");
            reveal_strlit("Pi");
        },
        Prefix::Exbi => {
            reveal_strlit("EXBI");
            reveal_strlit("Exbi");
            reveal_strlit("exbi");
            reveal_strlit("Ei");
        },
        Prefix::Zebi => {
            reveal_strlit("ZEBI");
            reveal_strlit("Zebi");
            reveal_strlit("zebi");
            reveal_strlit("Zi");
        },
        Prefix::Yobi => {
            reveal_strlit("YOBI");
            reveal_strlit("Yobi");
            reveal_strlit("yobi");
            reveal_strlit("Yi");
        },
    }
    assert(prefix.upper_spec() =~= prefix.lower_spec().map_values(|c: char| capital(c)));
    assert(prefix.caps_spec() =~= prefix.lower_spec().update(0, capital(prefix.lower_spec()[0])));
    assert(prefix.symbol_spec() =~= if prefix.is_binary() {
        seq![prefix.caps_spec()[0], 'i']
    } else if prefix == Prefix::Kilo {
        seq!['k']
    } else {
        seq![prefix.caps_spec()[0]]
    });
}

} // verus!
