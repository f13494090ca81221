//! Properties that tie several endpoints or settings together.
use vstd::prelude::*;
use crate::analytics::{
    is_most_clicked, law_most_clicked_prefix, TOP_LIMIT,
};
use crate::ranking::min_nat;
use crate::text::{
    all_digits, decimal, digits_value, lemma_decimal_digits, parsed_u16, unsigned_body,
};
use crate::model::Link;

verus! {

/// The listing holds every link, most clicked first; the most clicked links
/// of the analytics are its first entries, five of them, or all links when
/// there are fewer.
pub proof fn law_top_links_lead_listing(rows: Seq<Link>, listed: Seq<Link>, top: Seq<Link>)
    requires
        is_most_clicked(rows, rows.len(), listed),
        is_most_clicked(rows, TOP_LIMIT as nat, top),
    ensures
        listed.len() == rows.len(),
        forall|j: usize| j < rows.len() ==> listed.contains(#[trigger] rows[j as int]),
        forall|a: int, b: int| 0 <= a < b < listed.len() ==> listed[a].clicks >= listed[b].clicks,
        top.len() == min_nat(TOP_LIMIT as nat, rows.len()),
        top == listed.take(top.len() as int),
{
    crate::analytics::law_most_clicked_complete(rows, rows.len(), listed);
    crate::analytics::law_most_clicked_ranked(rows, rows.len(), listed);
    law_most_clicked_prefix(rows, TOP_LIMIT as nat, rows.len(), top, listed);
    crate::analytics::law_most_clicked_ranked(rows, TOP_LIMIT as nat, top);
}

/// A port written in decimal parses back to itself, so the address the
/// service listens on names the port it was configured with.
pub proof fn law_port_round_trip(port: u16)
    ensures
        parsed_u16(decimal(port as nat)) == Some(port),
{
    let d = decimal(port as nat);
    lemma_decimal_digits(port as nat);
    assert(crate::text::is_digit(d[0]));
    assert(unsigned_body(d) == d);
    assert(all_digits(d));
    assert(digits_value(d) == port);
}

/// What `PORT` parsing accepts: the decimal digits of any `u16`, with or
/// without a leading `+`; nothing when the text is empty, is a lone `+`, or
/// holds any other character than a leading `+` and digits.
pub proof fn law_port_parsing(port: u16, s: Seq<char>, i: int)
    ensures
        parsed_u16(decimal(port as nat)) == Some(port),
        parsed_u16(seq!['+'] + decimal(port as nat)) == Some(port),
        parsed_u16(Seq::empty()) is None,
        parsed_u16(seq!['+']) is None,
        0 <= i < s.len() && !crate::text::is_digit(s[i]) && !(i == 0 && s[i] == '+')
            ==> parsed_u16(s) is None,
{
    law_port_round_trip(port);
    let d = decimal(port as nat);
    let t = seq!['+'] + d;
    assert(t.drop_first() =~= d);
    assert(t[0] == '+');
    assert(unsigned_body(t) == d);
    lemma_decimal_digits(port as nat);
    assert(digits_value(d) == port);
    assert(seq!['+'].drop_first() =~= Seq::<char>::empty());
    if 0 <= i < s.len() && !crate::text::is_digit(s[i]) && !(i == 0 && s[i] == '+') {
        let body = unsigned_body(s);
        if s.len() > 0 && s[0] == '+' {
            assert(body[i - 1] == s[i]);
            assert(!all_digits(body));
        } else {
            assert(body[i] == s[i]);
            assert(!all_digits(body));
        }
    }
}

} // verus!
