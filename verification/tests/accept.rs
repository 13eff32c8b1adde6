use raddy::accept::{accept_entries, choose_algo, entries_to_weigh, q_number, AcceptEntry};
use raddy::compress::{Algo, Encoding};

/// Whether the weight text after `;` is positive: `q=<number>` parsed as an
/// `f32`, 1 when it is absent or does not parse.
fn q_positive(weight: &[u8]) -> bool {
    let q: f32 = q_number(weight)
        .and_then(|v| String::from_utf8(v).ok())
        .and_then(|v| v.parse().ok())
        .unwrap_or(1.0);
    q > 0.0
}

/// The whole choice: header text to algorithm.
fn choose_encoding(encode: &[Encoding], header: Option<&str>) -> Option<Algo> {
    let entries = entries_to_weigh(encode, header.map(|h| h.as_bytes()))?;
    let positive: Vec<bool> = entries
        .iter()
        .map(|e| e.weight.as_deref().map_or(true, q_positive))
        .collect();
    choose_algo(encode, &entries, &positive)
}

fn entry(name: &str, weight: Option<&str>) -> AcceptEntry {
    AcceptEntry {
        name: name.as_bytes().to_vec(),
        weight: weight.map(|w| w.as_bytes().to_vec()),
    }
}

#[test]
fn chooses_first_priority_client_accepts() {
    // encode zstd gzip → zstd wins if the client accepts both.
    let encode = [Encoding::Zstd, Encoding::Gzip];
    assert_eq!(choose_encoding(&encode, Some("gzip, zstd")), Some(Algo::Zstd));
    // Client that only accepts gzip → gzip.
    assert_eq!(choose_encoding(&encode, Some("gzip")), Some(Algo::Gzip));
    // Client accepting neither → none.
    assert_eq!(choose_encoding(&encode, Some("br")), None);
}

#[test]
fn wildcard_and_q0() {
    let encode = [Encoding::Zstd, Encoding::Gzip];
    // `*` accepts anything → first priority (zstd).
    assert_eq!(choose_encoding(&encode, Some("*")), Some(Algo::Zstd));
    // q=0 on the top priority excludes it → falls to gzip.
    assert_eq!(choose_encoding(&encode, Some("zstd;q=0, gzip")), Some(Algo::Gzip));
    // No Accept-Encoding header → no compression.
    assert_eq!(choose_encoding(&encode, None), None);
}

#[test]
fn no_encode_directive_means_no_compression() {
    assert_eq!(choose_encoding(&[], Some("gzip")), None);
}

#[test]
fn entries_split_on_commas_and_trim() {
    let entries = accept_entries(b" gzip ;q=0.5 , zstd,,br").unwrap();
    assert_eq!(
        entries,
        vec![
            entry("gzip", Some("q=0.5")),
            entry("zstd", None),
            entry("", None),
            entry("br", None),
        ]
    );
}

#[test]
fn empty_header_has_one_empty_entry() {
    assert_eq!(accept_entries(b"").unwrap(), vec![entry("", None)]);
    assert_eq!(accept_entries(b",").unwrap(), vec![entry("", None), entry("", None)]);
}

#[test]
fn weight_text_keeps_everything_after_the_first_semicolon() {
    let entries = accept_entries(b"gzip;q=1;level=2").unwrap();
    assert_eq!(entries, vec![entry("gzip", Some("q=1;level=2"))]);
}

#[test]
fn header_with_invisible_bytes_has_no_entries() {
    assert_eq!(accept_entries(b"gzip\x01"), None);
    assert_eq!(accept_entries(&[0x67, 0x7f]), None);
    assert_eq!(accept_entries(&[0xc3, 0xa9]), None);
    // Tab is visible for header values.
    assert_eq!(accept_entries(b"\tgzip").unwrap(), vec![entry("gzip", None)]);
}

#[test]
fn weight_flag_only_counts_for_weighted_entries() {
    let entries = vec![entry("gzip", None)];
    // An entry without a weight has weight 1, whatever the flag says.
    assert_eq!(choose_algo(&[Encoding::Gzip], &entries, &vec![false]), Some(Algo::Gzip));
    let entries = vec![entry("gzip", Some("q=0"))];
    assert_eq!(choose_algo(&[Encoding::Gzip], &entries, &vec![false]), None);
    assert_eq!(choose_algo(&[Encoding::Gzip], &entries, &vec![true]), Some(Algo::Gzip));
}

#[test]
fn names_match_exactly() {
    let encode = [Encoding::Gzip];
    assert_eq!(choose_encoding(&encode, Some("GZIP")), None);
    assert_eq!(choose_encoding(&encode, Some("x-gzip")), None);
    assert_eq!(choose_encoding(&encode, Some("gzip;q=0.001")), Some(Algo::Gzip));
    assert_eq!(choose_encoding(&encode, Some("gzip;q=0.0, *;q=0")), None);
    assert_eq!(choose_encoding(&encode, Some("br, *")), Some(Algo::Gzip));
}

#[test]
fn priority_follows_the_encode_directive() {
    let header = Some("gzip, zstd");
    assert_eq!(choose_encoding(&[Encoding::Gzip, Encoding::Zstd], header), Some(Algo::Gzip));
    assert_eq!(choose_encoding(&[Encoding::Zstd, Encoding::Gzip], header), Some(Algo::Zstd));
    assert_eq!(choose_encoding(&[Encoding::Zstd], Some("gzip")), None);
}

#[test]
fn nothing_to_weigh_without_algorithms_or_header() {
    assert_eq!(entries_to_weigh(&[], Some(b"gzip")), None);
    assert_eq!(entries_to_weigh(&[Encoding::Gzip], None), None);
    assert_eq!(entries_to_weigh(&[Encoding::Gzip], Some(b"gzip\x01")), None);
    assert_eq!(
        entries_to_weigh(&[Encoding::Gzip], Some(b"gzip, br")),
        Some(vec![entry("gzip", None), entry("br", None)])
    );
}

#[test]
fn entry_order_does_not_matter() {
    for encode in [[Encoding::Zstd, Encoding::Gzip], [Encoding::Gzip, Encoding::Zstd]] {
        assert_eq!(
            choose_encoding(&encode, Some("gzip, zstd;q=0, br")),
            choose_encoding(&encode, Some("br, zstd;q=0, gzip"))
        );
    }
}

#[test]
fn positive_weights_are_ignored() {
    let encode = [Encoding::Zstd, Encoding::Gzip];
    assert_eq!(choose_encoding(&encode, Some("gzip, zstd")), Some(Algo::Zstd));
    assert_eq!(choose_encoding(&encode, Some("gzip, zstd;q=0.5")), Some(Algo::Zstd));
    assert_eq!(choose_encoding(&encode, Some("gzip;q=1, zstd")), Some(Algo::Zstd));
}

#[test]
fn a_zero_weight_entry_changes_nothing() {
    let encode = [Encoding::Zstd, Encoding::Gzip];
    assert_eq!(choose_encoding(&encode, Some("gzip")), Some(Algo::Gzip));
    assert_eq!(choose_encoding(&encode, Some("gzip, zstd;q=0")), Some(Algo::Gzip));
    assert_eq!(choose_encoding(&encode, Some("gzip, *;q=0")), Some(Algo::Gzip));
}

#[test]
fn a_single_token_or_wildcard_selects_the_only_algorithm() {
    for (enc, algo) in [(Encoding::Gzip, Algo::Gzip), (Encoding::Zstd, Algo::Zstd)] {
        assert_eq!(choose_encoding(&[enc], Some(algo.token())), Some(algo));
        assert_eq!(choose_encoding(&[enc], Some("*")), Some(algo));
    }
}

#[test]
fn weight_number_text() {
    assert_eq!(q_number(b" q=0.5 "), Some(b"0.5".to_vec()));
    assert_eq!(q_number(b"q=0"), Some(b"0".to_vec()));
    assert_eq!(q_number(b"q="), Some(Vec::new()));
    assert_eq!(q_number(b"level=2"), None);
    assert_eq!(q_number(b"Q=1"), None);
    assert_eq!(q_number(b""), None);
}
