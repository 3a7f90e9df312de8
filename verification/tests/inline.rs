//! The inline tag protocol: decode to tag form, encode to each dialect.

use mdtowiki::w_conf::encode_to_conf;
use mdtowiki::w_doku::decode_from_doku;
use mdtowiki::w_doku::encode_to_doku;
use mdtowiki::w_doku::replace_doku_tags;
use mdtowiki::w_md::decode_from_md;
use mdtowiki::w_md::encode_to_md;
use mdtowiki::w_md::replace_md_tags;
use mdtowiki::w_puki::decode_from_puki;
use mdtowiki::w_puki::encode_to_puki;
use mdtowiki::w_puki::replace_puki_tags;

const M: char = '\u{7}';

fn tag(t: &str) -> String {
    let mut s = String::new();
    s.push(M);
    s.push_str(t);
    s
}

#[test]
fn md_decode_em_tiers() {
    assert_eq!(replace_md_tags("a *x* b"), format!("a {}x{} b", tag("B1"), tag("b1")));
    assert_eq!(replace_md_tags("a **x** b"), format!("a {}x{} b", tag("B2"), tag("b2")));
    assert_eq!(replace_md_tags("a ***x*** b"), format!("a {}x{} b", tag("B3"), tag("b3")));
    assert_eq!(replace_md_tags("a ~~x~~ b"), format!("a {}x{} b", tag("D0"), tag("d0")));
    assert_eq!(replace_md_tags("a `x` b"), format!("a {}x{} b", tag("C0"), tag("c0")));
}

#[test]
fn md_decode_underscore_maps_to_mismatched_pair() {
    // the underscore form opens tier 2 but closes tier 1, so it does not
    // round-trip
    assert_eq!(replace_md_tags("a _x_ b"), format!("a {}x{} b", tag("B2"), tag("b1")));
    assert_eq!(encode_to_md(&decode_from_md("_x_")), "**x*");
}

#[test]
fn md_decode_link_normalizes_order() {
    assert_eq!(
        replace_md_tags("see [label](target) end"),
        format!("see {}target{}label{} end", tag("L0"), tag("L1"), tag("L2"))
    );
}

#[test]
fn md_round_trip_inline() {
    for s in ["*i*", "**b**", "***bi***", "~~s~~", "`c`", "[l](t)", "plain text"] {
        assert_eq!(encode_to_md(&decode_from_md(s)), s);
    }
}

#[test]
fn md_unescape_entities_and_backslashes() {
    assert_eq!(decode_from_md("a&lt;b&gt;c&amp;d&e"), "a<b>c&d&e");
    assert_eq!(decode_from_md("a\\*b\\_c\\\\d"), "a*b_c\\d");
    assert_eq!(decode_from_md("odd\\qend"), "odd\\qend");
    assert_eq!(decode_from_md("trail\\"), "trail\\");
}

#[test]
fn md_encode_escapes() {
    assert_eq!(encode_to_md("a<b>c*d"), "a\\<b\\>c\\*d");
}

#[test]
fn doku_decode_and_encode() {
    assert_eq!(replace_doku_tags("a **x** b"), format!("a {}x{} b", tag("B2"), tag("b2")));
    assert_eq!(replace_doku_tags("a //x// b"), format!("a {}x{} b", tag("B1"), tag("b1")));
    assert_eq!(replace_doku_tags("a <del>x</del> b"), format!("a {}x{} b", tag("D0"), tag("d0")));
    for s in ["**b**", "//i//", "<del>s</del>", "[[t|l]]", "plain"] {
        assert_eq!(encode_to_doku(&decode_from_doku(s)), s);
    }
}

#[test]
fn doku_decode_links() {
    assert_eq!(
        replace_doku_tags("x [[target|label]] y"),
        format!("x {}target{}label{} y", tag("L0"), tag("L1"), tag("L2"))
    );
    assert_eq!(
        replace_doku_tags("x [[target]] y"),
        format!("x {}target{}{} y", tag("L0"), tag("L1"), tag("L2"))
    );
    // a bare link re-encodes with an empty label slot, so it is not stable
    assert_eq!(encode_to_doku(&decode_from_doku("[[t]]")), "[[t|]]");
}

#[test]
fn doku_encode_fences_slash_runs() {
    assert_eq!(encode_to_doku("a//b"), "a<nowiki>//</nowiki>b");
    assert_eq!(encode_to_doku("http://x"), "http://x");
    assert_eq!(encode_to_doku("end//"), "end<nowiki>//</nowiki>");
    assert_eq!(encode_to_doku("one/two"), "one/two");
    assert_eq!(encode_to_doku("drop\\_keep"), "drop_keep");
    assert_eq!(encode_to_doku("keep\\x"), "keep\\x");
}

#[test]
fn puki_decode_and_encode() {
    assert_eq!(replace_puki_tags("a '''x''' b"), format!("a {}x{} b", tag("B1"), tag("b1")));
    assert_eq!(replace_puki_tags("a ''x'' b"), format!("a {}x{} b", tag("B2"), tag("b2")));
    assert_eq!(replace_puki_tags("a %%x%% b"), format!("a {}x{} b", tag("D0"), tag("d0")));
    for s in ["'''b'''", "''i''", "%%s%%", "[[l>t]]", "plain"] {
        assert_eq!(encode_to_puki(&decode_from_puki(s)), s);
    }
}

#[test]
fn puki_decode_link_normalizes_order() {
    assert_eq!(
        replace_puki_tags("x [[label>target]] y"),
        format!("x {}target{}label{} y", tag("L0"), tag("L1"), tag("L2"))
    );
}

#[test]
fn cross_dialect_link_reorder() {
    let canonical = decode_from_md("[label](target)");
    assert_eq!(encode_to_doku(&canonical), "[[target|label]]");
    let back = decode_from_doku("[[target|label]]");
    assert_eq!(encode_to_md(&back), "[label](target)");
    assert_eq!(encode_to_puki(&back), "[[label>target]]");
    assert_eq!(encode_to_conf(&back), "[label|target]");
}

#[test]
fn conf_encode_tags() {
    assert_eq!(encode_to_conf(&decode_from_md("*i* **b** ~~s~~ `c`")), "_i_ *b* ~s~  c ");
    assert_eq!(encode_to_conf("plain"), "plain");
}

#[test]
fn malformed_tag_is_kept_literally() {
    // a marker byte with fewer than two characters after it is emitted as is
    let mut s = String::from("x");
    s.push(M);
    assert_eq!(encode_to_md(&s), s);
    assert_eq!(encode_to_puki(&s), s);
    assert_eq!(encode_to_conf(&s), s);
    assert_eq!(encode_to_doku(&s), s);
}
