use number_prefix::{Prefix, PrefixNames};
use number_prefix::{
    Exa, Exbi, Gibi, Giga, Kibi, Kilo, Mega, Mibi, Pebi, Peta, Tebi, Tera, Yobi, Yotta, Zebi,
    Zetta,
};

fn all() -> Vec<Prefix> {
    vec![
        Kilo, Mega, Giga, Tera, Peta, Exa, Zetta, Yotta, Kibi, Mibi, Gibi, Tebi, Pebi, Exbi, Zebi,
        Yobi,
    ]
}

#[test]
fn symbols_of_all_prefixes() {
    let symbols: Vec<&str> = all().iter().map(|p| p.symbol()).collect();
    assert_eq!(
        symbols,
        vec![
            "k", "M", "G", "T", "P", "E", "Z", "Y", "Ki", "Mi", "Gi", "Ti", "Pi", "Ei", "Zi",
            "Yi"
        ]
    );
}

#[test]
fn upper_names_of_all_prefixes() {
    let names: Vec<&str> = all().iter().map(|p| p.upper()).collect();
    assert_eq!(
        names,
        vec![
            "KILO", "MEGA", "GIGA", "TERA", "PETA", "EXA", "ZETTA", "YOTTA", "KIBI", "MEBI",
            "GIBI", "TEBI", "PEBI", "EXBI", "ZEBI", "YOBI"
        ]
    );
}

#[test]
fn caps_names_of_all_prefixes() {
    let names: Vec<&str> = all().iter().map(|p| p.caps()).collect();
    assert_eq!(
        names,
        vec![
            "Kilo", "Mega", "Giga", "Tera", "Peta", "Exa", "Zetta", "Yotta", "Kibi", "Mebi",
            "Gibi", "Tebi", "Pebi", "Exbi", "Zebi", "Yobi"
        ]
    );
}

#[test]
fn lower_names_of_all_prefixes() {
    let names: Vec<&str> = all().iter().map(|p| p.lower()).collect();
    assert_eq!(
        names,
        vec![
            "kilo", "mega", "giga", "tera", "peta", "exa", "zetta", "yotta", "kibi", "mebi",
            "gibi", "tebi", "pebi", "exbi", "zebi", "yobi"
        ]
    );
}

#[test]
fn names_are_the_same_at_every_call() {
    for prefix in all() {
        assert_eq!(prefix.symbol(), prefix.symbol());
        assert_eq!(prefix.upper(), prefix.upper());
        assert_eq!(prefix.caps(), prefix.caps());
        assert_eq!(prefix.lower(), prefix.lower());
    }
}

#[test]
fn the_forms_of_a_name_agree() {
    for prefix in all() {
        assert_eq!(prefix.upper(), prefix.lower().to_uppercase());
        assert_eq!(prefix.caps().to_lowercase(), prefix.lower());
        assert_eq!(prefix.caps()[..1], prefix.upper()[..1]);
    }
}

#[test]
fn binary_symbols_end_in_i() {
    for prefix in [Kibi, Mibi, Gibi, Tebi, Pebi, Exbi, Zebi, Yobi] {
        assert_eq!(prefix.symbol().len(), 2);
        assert!(prefix.symbol().ends_with('i'));
        assert_eq!(prefix.symbol()[..1], prefix.caps()[..1]);
    }
}

#[test]
fn decimal_symbols_are_one_letter() {
    for prefix in [Kilo, Mega, Giga, Tera, Peta, Exa, Zetta, Yotta] {
        assert_eq!(prefix.symbol().len(), 1);
    }
    assert_eq!(Kilo.symbol(), "k");
    assert_eq!(Mega.symbol(), "M");
}

#[test]
fn the_second_binary_prefix_is_mebi() {
    assert_eq!(Mibi.lower(), "mebi");
    assert_eq!(Mibi.caps(), "Mebi");
    assert_eq!(Mibi.upper(), "MEBI");
    assert_eq!(Mibi.symbol(), "Mi");
}
