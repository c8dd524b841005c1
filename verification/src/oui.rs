//! A small table of hardware vendors, by the first three octets of a MAC address.

use crate::model;
use crate::text;
use vstd::prelude::*;

verus! {

/// The vendor that owns an address prefix of six hexadecimal digits in lower case.
pub open spec fn prefix_vendor(prefix: Seq<char>) -> Option<Seq<char>> {
    if prefix == "000c29"@ {
        Some("VMware"@)
    } else if prefix == "00155d"@ {
        Some("Microsoft Hyper-V"@)
    } else if prefix == "001a11"@ {
        Some("Google"@)
    } else if prefix == "001b63"@ {
        Some("Apple"@)
    } else if prefix == "001e10"@ {
        Some("Huawei"@)
    } else if prefix == "001f3a"@ {
        Some("Hon Hai / Foxconn"@)
    } else if prefix == "00259e"@ {
        Some("Huawei"@)
    } else if prefix == "0050f2"@ {
        Some("Microsoft"@)
    } else if prefix == "00e04c"@ {
        Some("Realtek"@)
    } else if prefix == "0c8bfd"@ {
        Some("Intel"@)
    } else if prefix == "10521c"@ {
        Some("Espressif"@)
    } else if prefix == "18d6c7"@ {
        Some("TP-Link"@)
    } else if prefix == "1c697a"@ {
        Some("EliteGroup"@)
    } else if prefix == "247703"@ {
        Some("Intel"@)
    } else if prefix == "28c63f"@ {
        Some("Intel"@)
    } else if prefix == "2c3361"@ {
        Some("Apple"@)
    } else if prefix == "34243e"@ {
        Some("ZTE"@)
    } else if prefix == "34e6ad"@ {
        Some("Intel"@)
    } else if prefix == "3c5ab4"@ {
        Some("Google"@)
    } else if prefix == "40490f"@ {
        Some("Hon Hai"@)
    } else if prefix == "48a472"@ {
        Some("Intel"@)
    } else if prefix == "50284a"@ {
        Some("Intel"@)
    } else if prefix == "525400"@ {
        Some("QEMU/KVM"@)
    } else if prefix == "5c514f"@ {
        Some("Intel"@)
    } else if prefix == "60f677"@ {
        Some("Intel"@)
    } else if prefix == "70b3d5"@ {
        Some("IEEE Registration"@)
    } else if prefix == "78fc14"@ {
        Some("Family Global"@)
    } else if prefix == "7c67a2"@ {
        Some("Intel"@)
    } else if prefix == "80e650"@ {
        Some("Apple"@)
    } else if prefix == "88e9fe"@ {
        Some("Apple"@)
    } else if prefix == "9c5cf9"@ {
        Some("Sony"@)
    } else if prefix == "a4c361"@ {
        Some("Apple"@)
    } else if prefix == "acde48"@ {
        Some("Private"@)
    } else if prefix == "b827eb"@ {
        Some("Raspberry Pi"@)
    } else if prefix == "b8bc5b"@ {
        Some("Samsung"@)
    } else if prefix == "bc8335"@ {
        Some("Microsoft"@)
    } else if prefix == "c83a35"@ {
        Some("Tenda"@)
    } else if prefix == "d05099"@ {
        Some("ASUSTek"@)
    } else if prefix == "d83add"@ {
        Some("Raspberry Pi"@)
    } else if prefix == "dc4427"@ {
        Some("IEEE Registration"@)
    } else if prefix == "e4b318"@ {
        Some("Intel"@)
    } else if prefix == "e8ea6a"@ {
        Some("StarTech"@)
    } else if prefix == "f0d1a9"@ {
        Some("Apple"@)
    } else if prefix == "f4f5d8"@ {
        Some("Google"@)
    } else if prefix == "fc3497"@ {
        Some("ASUSTek"@)
    } else {
        None
    }
}

/// The vendor of the device with the address `mac`, in any notation: that of its first six
/// hexadecimal digits. An address with fewer digits, or with a prefix that the table lacks, has
/// none.
pub open spec fn vendor(mac: Seq<char>) -> Option<Seq<char>> {
    let hex = model::hex_digits(mac);
    if hex.len() < 6 {
        None
    } else {
        prefix_vendor(hex.take(6))
    }
}

fn prefix_vendor_of(prefix: &str) -> (r: Option<&'static str>)
    ensures
        text::opt_str(r) == prefix_vendor(prefix@),
{
    if text::same_text(prefix, "000c29") {
        Some("VMware")
    } else if text::same_text(prefix, "00155d") {
        Some("Microsoft Hyper-V")
    } else if text::same_text(prefix, "001a11") {
        Some("Google")
    } else if text::same_text(prefix, "001b63") {
        Some("Apple")
    } else if text::same_text(prefix, "001e10") {
        Some("Huawei")
    } else if text::same_text(prefix, "001f3a") {
        Some("Hon Hai / Foxconn")
    } else if text::same_text(prefix, "00259e") {
        Some("Huawei")
    } else if text::same_text(prefix, "0050f2") {
        Some("Microsoft")
    } else if text::same_text(prefix, "00e04c") {
        Some("Realtek")
    } else if text::same_text(prefix, "0c8bfd") {
        Some("Intel")
    } else if text::same_text(prefix, "10521c") {
        Some("Espressif")
    } else if text::same_text(prefix, "18d6c7") {
        Some("TP-Link")
    } else if text::same_text(prefix, "1c697a") {
        Some("EliteGroup")
    } else if text::same_text(prefix, "247703") {
        Some("Intel")
    } else if text::same_text(prefix, "28c63f") {
        Some("Intel")
    } else if text::same_text(prefix, "2c3361") {
        Some("Apple")
    } else if text::same_text(prefix, "34243e") {
        Some("ZTE")
    } else if text::same_text(prefix, "34e6ad") {
        Some("Intel")
    } else if text::same_text(prefix, "3c5ab4") {
        Some("Google")
    } else if text::same_text(prefix, "40490f") {
        Some("Hon Hai")
    } else if text::same_text(prefix, "48a472") {
        Some("Intel")
    } else if text::same_text(prefix, "50284a") {
        Some("Intel")
    } else if text::same_text(prefix, "525400") {
        Some("QEMU/KVM")
    } else if text::same_text(prefix, "5c514f") {
        Some("Intel")
    } else if text::same_text(prefix, "60f677") {
        Some("Intel")
    } else if text::same_text(prefix, "70b3d5") {
        Some("IEEE Registration")
    } else if text::same_text(prefix, "78fc14") {
        Some("Family Global")
    } else if text::same_text(prefix, "7c67a2") {
        Some("Intel")
    } else if text::same_text(prefix, "80e650") {
        Some("Apple")
    } else if text::same_text(prefix, "88e9fe") {
        Some("Apple")
    } else if text::same_text(prefix, "9c5cf9") {
        Some("Sony")
    } else if text::same_text(prefix, "a4c361") {
        Some("Apple")
    } else if text::same_text(prefix, "acde48") {
        Some("Private")
    } else if text::same_text(prefix, "b827eb") {
        Some("Raspberry Pi")
    } else if text::same_text(prefix, "b8bc5b") {
        Some("Samsung")
    } else if text::same_text(prefix, "bc8335") {
        Some("Microsoft")
    } else if text::same_text(prefix, "c83a35") {
        Some("Tenda")
    } else if text::same_text(prefix, "d05099") {
        Some("ASUSTek")
    } else if text::same_text(prefix, "d83add") {
        Some("Raspberry Pi")
    } else if text::same_text(prefix, "dc4427") {
        Some("IEEE Registration")
    } else if text::same_text(prefix, "e4b318") {
        Some("Intel")
    } else if text::same_text(prefix, "e8ea6a") {
        Some("StarTech")
    } else if text::same_text(prefix, "f0d1a9") {
        Some("Apple")
    } else if text::same_text(prefix, "f4f5d8") {
        Some("Google")
    } else if text::same_text(prefix, "fc3497") {
        Some("ASUSTek")
    } else {
        None
    }
}

/// The vendor of the device with the address `mac`.
pub fn lookup_vendor(mac: &str) -> (r: Option<&'static str>)
    ensures
        text::opt_str(r) == vendor(mac@),
{
    let hex: Vec<char> = model::hex_digits_of(mac);
    if hex.len() < 6 {
        return None;
    }
    assert(hex@.subrange(0, 6) =~= hex@.take(6));
    let prefix: String = text::slice_string(&hex, 0, 6);
    prefix_vendor_of(prefix.as_str())
}

/// The vendor of an optional address, as an owned text.
pub fn vendor_name(mac: &Option<String>) -> (r: Option<String>)
    ensures
        text::opt_text(r) == match *mac {
            Some(m) => vendor(m@),
            None => None,
        },
{
    match mac {
        Some(m) => match lookup_vendor(m.as_str()) {
            Some(v) => Some(text::owned(v)),
            None => None,
        },
        None => None,
    }
}

/// The notation of an address does not change its vendor.
pub proof fn law_vendor_of_normalized(mac: Seq<char>)
    requires
        model::normalized(mac) is Some,
    ensures
        vendor(model::normalized(mac).unwrap()) == vendor(mac),
{
    model::law_normalize_keeps_digits(mac);
}

/// The number that six hexadecimal digits in lower case write.
#[verifier::opaque]
spec fn value(s: Seq<char>) -> int {
    0x10_0000 * digit(s[0]) + 0x1_0000 * digit(s[1]) + 0x1000 * digit(s[2]) + 0x100 * digit(s[3])
        + 0x10 * digit(s[4]) + digit(s[5])
}

spec fn digit(c: char) -> int {
    if c <= '9' {
        c as int - '0' as int
    } else {
        c as int - 'a' as int + 10
    }
}

/// The vendor of an address goes by its first six digits alone; an address with fewer, or with
/// others, has none.
pub proof fn law_vendors(mac: Seq<char>)
    ensures
        model::hex_digits(mac).len() < 6 ==> vendor(mac) is None,
        model::hex_digits(mac).len() >= 6 ==> ({
            let p = model::hex_digits(mac).take(6);
            &&& (p == "000c29"@) ==> vendor(mac) == Some("VMware"@)
            &&& (p == "00155d"@) ==> vendor(mac) == Some("Microsoft Hyper-V"@)
            &&& (p == "001a11"@ || p == "3c5ab4"@ || p == "f4f5d8"@) ==> vendor(mac) == Some("Google"@)
            &&& (p == "001b63"@ || p == "2c3361"@ || p == "80e650"@ || p == "88e9fe"@ || p == "a4c361"@ || p == "f0d1a9"@) ==> vendor(mac) == Some("Apple"@)
            &&& (p == "001e10"@ || p == "00259e"@) ==> vendor(mac) == Some("Huawei"@)
            &&& (p == "001f3a"@) ==> vendor(mac) == Some("Hon Hai / Foxconn"@)
            &&& (p == "0050f2"@ || p == "bc8335"@) ==> vendor(mac) == Some("Microsoft"@)
            &&& (p == "00e04c"@) ==> vendor(mac) == Some("Realtek"@)
            &&& (p == "0c8bfd"@ || p == "247703"@ || p == "28c63f"@ || p == "34e6ad"@ || p == "48a472"@ || p == "50284a"@ || p == "5c514f"@ || p == "60f677"@ || p == "7c67a2"@ || p == "e4b318"@) ==> vendor(mac) == Some("Intel"@)
            &&& (p == "10521c"@) ==> vendor(mac) == Some("Espressif"@)
            &&& (p == "18d6c7"@) ==> vendor(mac) == Some("TP-Link"@)
            &&& (p == "1c697a"@) ==> vendor(mac) == Some("EliteGroup"@)
            &&& (p == "34243e"@) ==> vendor(mac) == Some("ZTE"@)
            &&& (p == "40490f"@) ==> vendor(mac) == Some("Hon Hai"@)
            &&& (p == "525400"@) ==> vendor(mac) == Some("QEMU/KVM"@)
            &&& (p == "70b3d5"@ || p == "dc4427"@) ==> vendor(mac) == Some("IEEE Registration"@)
            &&& (p == "78fc14"@) ==> vendor(mac) == Some("Family Global"@)
            &&& (p == "9c5cf9"@) ==> vendor(mac) == Some("Sony"@)
            &&& (p == "acde48"@) ==> vendor(mac) == Some("Private"@)
            &&& (p == "b827eb"@ || p == "d83add"@) ==> vendor(mac) == Some("Raspberry Pi"@)
            &&& (p == "b8bc5b"@) ==> vendor(mac) == Some("Samsung"@)
            &&& (p == "c83a35"@) ==> vendor(mac) == Some("Tenda"@)
            &&& (p == "d05099"@ || p == "fc3497"@) ==> vendor(mac) == Some("ASUSTek"@)
            &&& (p == "e8ea6a"@) ==> vendor(mac) == Some("StarTech"@)
            &&& p != "000c29"@
            && p != "00155d"@
            && p != "001a11"@
            && p != "001b63"@
            && p != "001e10"@
            && p != "001f3a"@
            && p != "00259e"@
            && p != "0050f2"@
            && p != "00e04c"@
            && p != "0c8bfd"@
            && p != "10521c"@
            && p != "18d6c7"@
            && p != "1c697a"@
            && p != "247703"@
            && p != "28c63f"@
            && p != "2c3361"@
            && p != "34243e"@
            && p != "34e6ad"@
            && p != "3c5ab4"@
            && p != "40490f"@
            && p != "48a472"@
            && p != "50284a"@
            && p != "525400"@
            && p != "5c514f"@
            && p != "60f677"@
            && p != "70b3d5"@
            && p != "78fc14"@
            && p != "7c67a2"@
            && p != "80e650"@
            && p != "88e9fe"@
            && p != "9c5cf9"@
            && p != "a4c361"@
            && p != "acde48"@
            && p != "b827eb"@
            && p != "b8bc5b"@
            && p != "bc8335"@
            && p != "c83a35"@
            && p != "d05099"@
            && p != "d83add"@
            && p != "dc4427"@
            && p != "e4b318"@
            && p != "e8ea6a"@
            && p != "f0d1a9"@
            && p != "f4f5d8"@
            && p != "fc3497"@
                ==> vendor(mac) is None
        }),
{
    lemma_values();
}

proof fn lemma_values()
    ensures
        value("000c29"@) == 0x000c29,
        value("00155d"@) == 0x00155d,
        value("001a11"@) == 0x001a11,
        value("001b63"@) == 0x001b63,
        value("001e10"@) == 0x001e10,
        value("001f3a"@) == 0x001f3a,
        value("00259e"@) == 0x00259e,
        value("0050f2"@) == 0x0050f2,
        value("00e04c"@) == 0x00e04c,
        value("0c8bfd"@) == 0x0c8bfd,
        value("10521c"@) == 0x10521c,
        value("18d6c7"@) == 0x18d6c7,
        value("1c697a"@) == 0x1c697a,
        value("247703"@) == 0x247703,
        value("28c63f"@) == 0x28c63f,
        value("2c3361"@) == 0x2c3361,
        value("34243e"@) == 0x34243e,
        value("34e6ad"@) == 0x34e6ad,
        value("3c5ab4"@) == 0x3c5ab4,
        value("40490f"@) == 0x40490f,
        value("48a472"@) == 0x48a472,
        value("50284a"@) == 0x50284a,
        value("525400"@) == 0x525400,
        value("5c514f"@) == 0x5c514f,
        value("60f677"@) == 0x60f677,
        value("70b3d5"@) == 0x70b3d5,
        value("78fc14"@) == 0x78fc14,
        value("7c67a2"@) == 0x7c67a2,
        value("80e650"@) == 0x80e650,
        value("88e9fe"@) == 0x88e9fe,
        value("9c5cf9"@) == 0x9c5cf9,
        value("a4c361"@) == 0xa4c361,
        value("acde48"@) == 0xacde48,
        value("b827eb"@) == 0xb827eb,
        value("b8bc5b"@) == 0xb8bc5b,
        value("bc8335"@) == 0xbc8335,
        value("c83a35"@) == 0xc83a35,
        value("d05099"@) == 0xd05099,
        value("d83add"@) == 0xd83add,
        value("dc4427"@) == 0xdc4427,
        value("e4b318"@) == 0xe4b318,
        value("e8ea6a"@) == 0xe8ea6a,
        value("f0d1a9"@) == 0xf0d1a9,
        value("f4f5d8"@) == 0xf4f5d8,
        value("fc3497"@) == 0xfc3497,
{
    assert(value("000c29"@) == 0x000c29) by {
        reveal(value);
        reveal_strlit("000c29");
    }
    assert(value("00155d"@) == 0x00155d) by {
        reveal(value);
        reveal_strlit("00155d");
    }
    assert(value("001a11"@) == 0x001a11) by {
        reveal(value);
        reveal_strlit("001a11");
    }
    assert(value("001b63"@) == 0x001b63) by {
        reveal(value);
        reveal_strlit("001b63");
    }
    assert(value("001e10"@) == 0x001e10) by {
        reveal(value);
        reveal_strlit("001e10");
    }
    assert(value("001f3a"@) == 0x001f3a) by {
        reveal(value);
        reveal_strlit("001f3a");
    }
    assert(value("00259e"@) == 0x00259e) by {
        reveal(value);
        reveal_strlit("00259e");
    }
    assert(value("0050f2"@) == 0x0050f2) by {
        reveal(value);
        reveal_strlit("0050f2");
    }
    assert(value("00e04c"@) == 0x00e04c) by {
        reveal(value);
        reveal_strlit("00e04c");
    }
    assert(value("0c8bfd"@) == 0x0c8bfd) by {
        reveal(value);
        reveal_strlit("0c8bfd");
    }
    assert(value("10521c"@) == 0x10521c) by {
        reveal(value);
        reveal_strlit("10521c");
    }
    assert(value("18d6c7"@) == 0x18d6c7) by {
        reveal(value);
        reveal_strlit("18d6c7");
    }
    assert(value("1c697a"@) == 0x1c697a) by {
        reveal(value);
        reveal_strlit("1c697a");
    }
    assert(value("247703"@) == 0x247703) by {
        reveal(value);
        reveal_strlit("247703");
    }
    assert(value("28c63f"@) == 0x28c63f) by {
        reveal(value);
        reveal_strlit("28c63f");
    }
    assert(value("2c3361"@) == 0x2c3361) by {
        reveal(value);
        reveal_strlit("2c3361");
    }
    assert(value("34243e"@) == 0x34243e) by {
        reveal(value);
        reveal_strlit("34243e");
    }
    assert(value("34e6ad"@) == 0x34e6ad) by {
        reveal(value);
        reveal_strlit("34e6ad");
    }
    assert(value("3c5ab4"@) == 0x3c5ab4) by {
        reveal(value);
        reveal_strlit("3c5ab4");
    }
    assert(value("40490f"@) == 0x40490f) by {
        reveal(value);
        reveal_strlit("40490f");
    }
    assert(value("48a472"@) == 0x48a472) by {
        reveal(value);
        reveal_strlit("48a472");
    }
    assert(value("50284a"@) == 0x50284a) by {
        reveal(value);
        reveal_strlit("50284a");
    }
    assert(value("525400"@) == 0x525400) by {
        reveal(value);
        reveal_strlit("525400");
    }
    assert(value("5c514f"@) == 0x5c514f) by {
        reveal(value);
        reveal_strlit("5c514f");
    }
    assert(value("60f677"@) == 0x60f677) by {
        reveal(value);
        reveal_strlit("60f677");
    }
    assert(value("70b3d5"@) == 0x70b3d5) by {
        reveal(value);
        reveal_strlit("70b3d5");
    }
    assert(value("78fc14"@) == 0x78fc14) by {
        reveal(value);
        reveal_strlit("78fc14");
    }
    assert(value("7c67a2"@) == 0x7c67a2) by {
        reveal(value);
        reveal_strlit("7c67a2");
    }
    assert(value("80e650"@) == 0x80e650) by {
        reveal(value);
        reveal_strlit("80e650");
    }
    assert(value("88e9fe"@) == 0x88e9fe) by {
        reveal(value);
        reveal_strlit("88e9fe");
    }
    assert(value("9c5cf9"@) == 0x9c5cf9) by {
        reveal(value);
        reveal_strlit("9c5cf9");
    }
    assert(value("a4c361"@) == 0xa4c361) by {
        reveal(value);
        reveal_strlit("a4c361");
    }
    assert(value("acde48"@) == 0xacde48) by {
        reveal(value);
        reveal_strlit("acde48");
    }
    assert(value("b827eb"@) == 0xb827eb) by {
        reveal(value);
        reveal_strlit("b827eb");
    }
    assert(value("b8bc5b"@) == 0xb8bc5b) by {
        reveal(value);
        reveal_strlit("b8bc5b");
    }
    assert(value("bc8335"@) == 0xbc8335) by {
        reveal(value);
        reveal_strlit("bc8335");
    }
    assert(value("c83a35"@) == 0xc83a35) by {
        reveal(value);
        reveal_strlit("c83a35");
    }
    assert(value("d05099"@) == 0xd05099) by {
        reveal(value);
        reveal_strlit("d05099");
    }
    assert(value("d83add"@) == 0xd83add) by {
        reveal(value);
        reveal_strlit("d83add");
    }
    assert(value("dc4427"@) == 0xdc4427) by {
        reveal(value);
        reveal_strlit("dc4427");
    }
    assert(value("e4b318"@) == 0xe4b318) by {
        reveal(value);
        reveal_strlit("e4b318");
    }
    assert(value("e8ea6a"@) == 0xe8ea6a) by {
        reveal(value);
        reveal_strlit("e8ea6a");
    }
    assert(value("f0d1a9"@) == 0xf0d1a9) by {
        reveal(value);
        reveal_strlit("f0d1a9");
    }
    assert(value("f4f5d8"@) == 0xf4f5d8) by {
        reveal(value);
        reveal_strlit("f4f5d8");
    }
    assert(value("fc3497"@) == 0xfc3497) by {
        reveal(value);
        reveal_strlit("fc3497");
    }
}

} // verus!
