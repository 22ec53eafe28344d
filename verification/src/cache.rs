//! The content-addressed cache key: SHA-256 digests of the input files
//! plus the toolchain identity, concatenated and hashed again. The key
//! is a pure function of everything that can affect an analysis, so
//! identical inputs reuse cached output and any change invalidates it.
use sha2::Digest;
use vstd::prelude::*;

use crate::model::ToolchainPaths;

verus! {

/// The SHA-256 digest of a byte string. The digest itself is left
/// uninterpreted: it depends on the input bytes alone.
pub uninterp spec fn sha256_of(bytes: Seq<u8>) -> Seq<u8>;

/// Relies on sha2's `Sha256` through the `Digest::digest` interface:
/// the digest depends on the input bytes alone, and is 32 bytes long.
#[verifier::external_body]
fn sha256_digest(bytes: &[u8]) -> (r: Vec<u8>)
    ensures
        r@ == sha256_of(bytes@),
        r@.len() == 32,
{
    sha2::Sha256::digest(bytes).to_vec()
}

/// The lowercase hexadecimal digit for a value below 16.
pub open spec fn hex_char(v: int) -> char {
    if v == 0 {
        '0'
    } else if v == 1 {
        '1'
    } else if v == 2 {
        '2'
    } else if v == 3 {
        '3'
    } else if v == 4 {
        '4'
    } else if v == 5 {
        '5'
    } else if v == 6 {
        '6'
    } else if v == 7 {
        '7'
    } else if v == 8 {
        '8'
    } else if v == 9 {
        '9'
    } else if v == 10 {
        'a'
    } else if v == 11 {
        'b'
    } else if v == 12 {
        'c'
    } else if v == 13 {
        'd'
    } else if v == 14 {
        'e'
    } else {
        'f'
    }
}

/// Lowercase hexadecimal rendering of a byte string, two digits per
/// byte, most significant first.
pub open spec fn hex_of(bytes: Seq<u8>) -> Seq<char>
    decreases bytes.len(),
{
    if bytes.len() == 0 {
        Seq::empty()
    } else {
        hex_of(bytes.drop_last()) + seq![
            hex_char(bytes.last() as int / 16),
            hex_char(bytes.last() as int % 16),
        ]
    }
}

fn push_hex_char(acc: &mut String, v: u8)
    requires
        v < 16,
    ensures
        final (acc)@ == old(acc)@ + seq![hex_char(v as int)],
{
    if v == 0 {
        proof {
            reveal_strlit("0");
            assert("0"@ =~= seq![hex_char(0)]);
        }
        acc.append("0");
    } else if v == 1 {
        proof {
            reveal_strlit("1");
            assert("1"@ =~= seq![hex_char(1)]);
        }
        acc.append("1");
    } else if v == 2 {
        proof {
            reveal_strlit("2");
            assert("2"@ =~= seq![hex_char(2)]);
        }
        acc.append("2");
    } else if v == 3 {
        proof {
            reveal_strlit("3");
            assert("3"@ =~= seq![hex_char(3)]);
        }
        acc.append("3");
    } else if v == 4 {
        proof {
            reveal_strlit("4");
            assert("4"@ =~= seq![hex_char(4)]);
        }
        acc.append("4");
    } else if v == 5 {
        proof {
            reveal_strlit("5");
            assert("5"@ =~= seq![hex_char(5)]);
        }
        acc.append("5");
    } else if v == 6 {
        proof {
            reveal_strlit("6");
            assert("6"@ =~= seq![hex_char(6)]);
        }
        acc.append("6");
    } else if v == 7 {
        proof {
            reveal_strlit("7");
            assert("7"@ =~= seq![hex_char(7)]);
        }
        acc.append("7");
    } else if v == 8 {
        proof {
            reveal_strlit("8");
            assert("8"@ =~= seq![hex_char(8)]);
        }
        acc.append("8");
    } else if v == 9 {
        proof {
            reveal_strlit("9");
            assert("9"@ =~= seq![hex_char(9)]);
        }
        acc.append("9");
    } else if v == 10 {
        proof {
            reveal_strlit("a");
            assert("a"@ =~= seq![hex_char(10)]);
        }
        acc.append("a");
    } else if v == 11 {
        proof {
            reveal_strlit("b");
            assert("b"@ =~= seq![hex_char(11)]);
        }
        acc.append("b");
    } else if v == 12 {
        proof {
            reveal_strlit("c");
            assert("c"@ =~= seq![hex_char(12)]);
        }
        acc.append("c");
    } else if v == 13 {
        proof {
            reveal_strlit("d");
            assert("d"@ =~= seq![hex_char(13)]);
        }
        acc.append("d");
    } else if v == 14 {
        proof {
            reveal_strlit("e");
            assert("e"@ =~= seq![hex_char(14)]);
        }
        acc.append("e");
    } else {
        proof {
            reveal_strlit("f");
            assert("f"@ =~= seq![hex_char(15)]);
        }
        acc.append("f");
    }
}

/// Render a byte string as lowercase hexadecimal.
fn to_hex(bytes: &Vec<u8>) -> (r: String)
    ensures
        r@ == hex_of(bytes@),
{
    let mut acc = String::new();
    let mut i: usize = 0;
    proof {
        assert(bytes@.take(0) =~= Seq::<u8>::empty());
        assert(acc@ =~= hex_of(bytes@.take(0)));
    }
    while i < bytes.len()
        invariant
            0 <= i <= bytes@.len(),
            acc@ == hex_of(bytes@.take(i as int)),
        decreases bytes@.len() - i,
    {
        proof {
            assert(bytes@.take(i + 1).drop_last() =~= bytes@.take(i as int));
            assert(bytes@.take(i + 1).last() == bytes@[i as int]);
        }
        let b = bytes[i];
        push_hex_char(&mut acc, b / 16);
        push_hex_char(&mut acc, b % 16);
        proof {
            assert(acc@ =~= hex_of(bytes@.take(i + 1)));
        }
        i = i + 1;
    }
    proof {
        assert(bytes@.take(bytes@.len() as int) =~= bytes@);
    }
    acc
}

/// The hex-rendered SHA-256 digest of a byte buffer, as whole input
/// files are hashed.
pub fn hash_bytes(bytes: &Vec<u8>) -> (r: String)
    ensures
        r@ == hex_of(sha256_of(bytes@)),
{
    let digest = sha256_digest(bytes.as_slice());
    to_hex(&digest)
}

/// The hex-rendered SHA-256 digest of a string's UTF-8 bytes.
pub fn hash_string(value: &str) -> (r: String)
    ensures
        r@ == hex_of(sha256_of(vstd::utf8::encode_utf8(value@))),
{
    let digest = sha256_digest(value.as_bytes());
    to_hex(&digest)
}

/// The string that is hashed into the cache key: a version tag, the
/// two file digests, and the three resolved tool paths.
pub open spec fn key_material(
    elf_hash: Seq<char>,
    map_hash: Seq<char>,
    nm: Seq<char>,
    objdump: Seq<char>,
    strings: Seq<char>,
) -> Seq<char> {
    "ver:v3|elf:"@ + elf_hash + "|map:"@ + map_hash + "|tool:"@ + nm + "|"@ + objdump + "|"@
        + strings
}

/// The cache key as a function of everything that can affect the
/// analysis: the binary's bytes, the map file's bytes (or a sentinel
/// when absent), and the three tool paths.
pub open spec fn cache_key_spec(
    elf: Seq<u8>,
    map: Option<Seq<u8>>,
    nm: Seq<char>,
    objdump: Seq<char>,
    strings: Seq<char>,
) -> Seq<char> {
    let elf_hash = hex_of(sha256_of(elf));
    let map_hash = match map {
        Some(b) => hex_of(sha256_of(b)),
        None => "none"@,
    };
    hex_of(
        sha256_of(
            vstd::utf8::encode_utf8(key_material(elf_hash, map_hash, nm, objdump, strings)),
        ),
    )
}

/// Derive the cache key from the input files' bytes and the resolved
/// toolchain.
pub fn build_cache_key(
    toolchain: &ToolchainPaths,
    elf_bytes: &Vec<u8>,
    map_bytes: Option<&Vec<u8>>,
) -> (r: String)
    ensures
        r@ == cache_key_spec(
            elf_bytes@,
            match map_bytes {
                Some(b) => Some(b@),
                None => None,
            },
            toolchain.nm_path@,
            toolchain.objdump_path@,
            toolchain.strings_path@,
        ),
{
    let elf_hash = hash_bytes(elf_bytes);
    let map_hash = match map_bytes {
        Some(b) => hash_bytes(b),
        None => "none".to_owned(),
    };
    let mut raw = String::new();
    raw.append("ver:v3|elf:");
    raw.append(elf_hash.as_str());
    raw.append("|map:");
    raw.append(map_hash.as_str());
    raw.append("|tool:");
    raw.append(toolchain.nm_path.as_str());
    raw.append("|");
    raw.append(toolchain.objdump_path.as_str());
    raw.append("|");
    raw.append(toolchain.strings_path.as_str());
    hash_string(raw.as_str())
}

/// Two runs over the same binary, map and toolchain derive the same
/// key: the key is a pure function of its inputs.
pub proof fn lemma_cache_key_deterministic(
    elf1: Seq<u8>,
    map1: Option<Seq<u8>>,
    nm1: Seq<char>,
    objdump1: Seq<char>,
    strings1: Seq<char>,
    elf2: Seq<u8>,
    map2: Option<Seq<u8>>,
    nm2: Seq<char>,
    objdump2: Seq<char>,
    strings2: Seq<char>,
)
    requires
        elf1 == elf2,
        map1 == map2,
        nm1 == nm2,
        objdump1 == objdump2,
        strings1 == strings2,
    ensures
        cache_key_spec(elf1, map1, nm1, objdump1, strings1) == cache_key_spec(
            elf2,
            map2,
            nm2,
            objdump2,
            strings2,
        ),
{
}

/// The cache artifact file name for a key: `{kind}-{key}.json`.
pub fn cache_file_name(kind: &str, key: &str) -> (r: String)
    ensures
        r@ == kind@ + "-"@ + key@ + ".json"@,
{
    let mut name = kind.to_owned();
    name.append("-");
    name.append(key);
    name.append(".json");
    name
}

} // verus!
