//! Known Intel ME/TXE/SPS public-key MD5 fingerprints.

use crate::text::str_eq;
use vstd::prelude::*;

verus! {

/// `(variant, versions)` of a known public-key MD5 (lowercase hex).
pub open spec fn known_pubkey(md5: Seq<char>) -> Option<(Seq<char>, Seq<Seq<char>>)> {
    if md5 == "8431285d43b0f2a2f520d7cab3d34178"@ {
        Some(("ME"@, seq!["2.0.x.x"@, "2.1.x.x"@, "2.2.x.x"@]))
    } else if md5 == "4c00dd06c28119b5c1e5bb8eb6f30596"@ {
        Some(("ME"@, seq!["2.5.x.x"@, "2.6.x.x"@]))
    } else if md5 == "9c24077a7f7490967855e9c4c16c6b9e"@ {
        Some(("ME"@, seq!["3.x.x.x"@]))
    } else if md5 == "bf41464be736f5520d80c67f6789020e"@ {
        Some(("ME"@, seq!["4.x.x.x"@]))
    } else if md5 == "5c7169b7e7065323fb7b3b5657b4d57a"@ {
        Some(("ME"@, seq!["5.x.x.x"@]))
    } else if md5 == "763e59ebe235e45a197a5b1a378dfa04"@ {
        Some(("ME"@, seq!["6.x.x.x"@]))
    } else if md5 == "3a98c847d609c253e145bd36512629cb"@ {
        Some(("ME"@, seq!["6.0.50.x"@]))
    } else if md5 == "0903fc25b0f6bed8c4ed724aca02124c"@ {
        Some(("ME"@, seq!["7.x.x.x"@, "8.x.x.x"@]))
    } else if md5 == "2011ae6df87c40fba09e3f20459b1ce0"@ {
        Some(("ME"@, seq!["9.0.x.x"@, "9.1.x.x"@]))
    } else if md5 == "e8427c5691cf8b56bc5cdd82746957ed"@ {
        Some(("ME"@, seq!["9.5.x.x"@, "10.x.x.x"@]))
    } else if md5 == "986a78e481f185f7d54e4af06eb413f6"@ {
        Some(("ME"@, seq!["11.x.x.x"@]))
    } else if md5 == "3efc26920b4bee901b624771c742887b"@ {
        Some(("ME"@, seq!["12.x.x.x"@]))
    } else if md5 == "8e4f834644da2bef03039d69d41ecf02"@ {
        Some(("ME"@, seq!["14.x.x.x"@]))
    } else if md5 == "b29411f89bf20ed177d411c46e8ec185"@ {
        Some(("ME"@, seq!["15.x.x.x"@]))
    } else if md5 == "5887caf9b677601ffb257cc98a13d2a9"@ {
        Some(("ME"@, seq!["16.x.x.x"@]))
    } else if md5 == "bda0b6bb8ca0bf0cac55ac4c4d55e0f2"@ {
        Some(("TXE"@, seq!["1.x.x.x"@]))
    } else if md5 == "b726a2ab9cd59d4e62fe2bead7cf6997"@ {
        Some(("TXE"@, seq!["1.x.x.x"@]))
    } else if md5 == "0633d7f951a3e7968ae7460861be9cfb"@ {
        Some(("TXE"@, seq!["2.x.x.x"@]))
    } else if md5 == "1d0a36e9f5881540d8e4b382c6612ed8"@ {
        Some(("TXE"@, seq!["3.x.x.x"@]))
    } else if md5 == "be900fef868f770d266b1fc67e887e69"@ {
        Some(("SPS"@, seq!["2.x.x.x"@]))
    } else if md5 == "4622e3f2cb212a89c90a4de3336d88d2"@ {
        Some(("SPS"@, seq!["3.x.x.x"@]))
    } else if md5 == "31ef3d950eac99d18e187375c0764ca4"@ {
        Some(("SPS"@, seq!["4.x.x.x"@]))
    } else {
        None
    }
}

/// Variant and firmware versions signed by the key with this MD5, if known.
pub fn lookup(md5_hex: &str) -> (r: Option<(&'static str, &'static [&'static str])>)
    ensures
        match known_pubkey(md5_hex@) {
            Some((v, vs)) => r matches Some((rv, rvs)) && rv@ == v && rvs@.map_values(|s: &str| s@) == vs,
            None => r is None,
        },
{
    if str_eq(md5_hex, "8431285d43b0f2a2f520d7cab3d34178") {
        Some(("ME", &["2.0.x.x", "2.1.x.x", "2.2.x.x"]))
    } else if str_eq(md5_hex, "4c00dd06c28119b5c1e5bb8eb6f30596") {
        Some(("ME", &["2.5.x.x", "2.6.x.x"]))
    } else if str_eq(md5_hex, "9c24077a7f7490967855e9c4c16c6b9e") {
        Some(("ME", &["3.x.x.x"]))
    } else if str_eq(md5_hex, "bf41464be736f5520d80c67f6789020e") {
        Some(("ME", &["4.x.x.x"]))
    } else if str_eq(md5_hex, "5c7169b7e7065323fb7b3b5657b4d57a") {
        Some(("ME", &["5.x.x.x"]))
    } else if str_eq(md5_hex, "763e59ebe235e45a197a5b1a378dfa04") {
        Some(("ME", &["6.x.x.x"]))
    } else if str_eq(md5_hex, "3a98c847d609c253e145bd36512629cb") {
        Some(("ME", &["6.0.50.x"]))
    } else if str_eq(md5_hex, "0903fc25b0f6bed8c4ed724aca02124c") {
        Some(("ME", &["7.x.x.x", "8.x.x.x"]))
    } else if str_eq(md5_hex, "2011ae6df87c40fba09e3f20459b1ce0") {
        Some(("ME", &["9.0.x.x", "9.1.x.x"]))
    } else if str_eq(md5_hex, "e8427c5691cf8b56bc5cdd82746957ed") {
        Some(("ME", &["9.5.x.x", "10.x.x.x"]))
    } else if str_eq(md5_hex, "986a78e481f185f7d54e4af06eb413f6") {
        Some(("ME", &["11.x.x.x"]))
    } else if str_eq(md5_hex, "3efc26920b4bee901b624771c742887b") {
        Some(("ME", &["12.x.x.x"]))
    } else if str_eq(md5_hex, "8e4f834644da2bef03039d69d41ecf02") {
        Some(("ME", &["14.x.x.x"]))
    } else if str_eq(md5_hex, "b29411f89bf20ed177d411c46e8ec185") {
        Some(("ME", &["15.x.x.x"]))
    } else if str_eq(md5_hex, "5887caf9b677601ffb257cc98a13d2a9") {
        Some(("ME", &["16.x.x.x"]))
    } else if str_eq(md5_hex, "bda0b6bb8ca0bf0cac55ac4c4d55e0f2") {
        Some(("TXE", &["1.x.x.x"]))
    } else if str_eq(md5_hex, "b726a2ab9cd59d4e62fe2bead7cf6997") {
        Some(("TXE", &["1.x.x.x"]))
    } else if str_eq(md5_hex, "0633d7f951a3e7968ae7460861be9cfb") {
        Some(("TXE", &["2.x.x.x"]))
    } else if str_eq(md5_hex, "1d0a36e9f5881540d8e4b382c6612ed8") {
        Some(("TXE", &["3.x.x.x"]))
    } else if str_eq(md5_hex, "be900fef868f770d266b1fc67e887e69") {
        Some(("SPS", &["2.x.x.x"]))
    } else if str_eq(md5_hex, "4622e3f2cb212a89c90a4de3336d88d2") {
        Some(("SPS", &["3.x.x.x"]))
    } else if str_eq(md5_hex, "31ef3d950eac99d18e187375c0764ca4") {
        Some(("SPS", &["4.x.x.x"]))
    } else {
        None
    }
}

} // verus!
