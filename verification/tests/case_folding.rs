use ecma_regex::folding::other_forms;
use ecma_regex::{Flags, Regex};

fn check(
    pattern: &str,
    flags: &str,
    text: &str,
    start: usize,
    expected: Option<Vec<Option<(usize, usize)>>>,
) {
    let flags = Flags::from_str(flags).unwrap();
    let re = match Regex::with_flags(pattern, flags) {
        Ok(re) => re,
        Err(e) => panic!("/{}/ does not compile: {:?}", pattern, e),
    };
    let got = re.exec(text, start).unwrap();
    assert_eq!(got, expected, "/{}/ on {:?} from {}", pattern, text, start);
}

fn same(flags: &str, a: u32, b: u32) -> bool {
    let pattern = format!("^\\u{{{:x}}}$", a);
    let pattern = if flags.contains('u') { pattern } else { format!("^\\u{:04x}$", a) };
    let re = Regex::with_flags(&pattern, Flags::from_str(flags).unwrap()).unwrap();
    re.is_match(&char::from_u32(b).unwrap().to_string())
}

#[test]
fn letters_paired_without_the_unicode_flag() {
    let pairs: [(u32, u32); 664] = [
        (0x41, 0x61), (0x5a, 0x7a), (0x4d, 0x6d), (0x61, 0x41), (0x7a, 0x5a), (0x6d, 0x4d),
        (0xb5, 0x39c), (0xb5, 0x3bc), (0xc0, 0xe0), (0xd6, 0xf6), (0xca, 0xea), (0xd8, 0xf8),
        (0xde, 0xfe), (0xda, 0xfa), (0xe0, 0xc0), (0xf6, 0xd6), (0xea, 0xca), (0xf8, 0xd8),
        (0xfe, 0xde), (0xfa, 0xda), (0xff, 0x178), (0x100, 0x101), (0x12e, 0x12f), (0x114, 0x115),
        (0x101, 0x100), (0x12f, 0x12e), (0x115, 0x114), (0x132, 0x133), (0x136, 0x137),
        (0x133, 0x132), (0x137, 0x136), (0x139, 0x13a), (0x147, 0x148), (0x13d, 0x13e),
        (0x13a, 0x139), (0x148, 0x147), (0x13e, 0x13d), (0x14a, 0x14b), (0x176, 0x177),
        (0x15e, 0x15f), (0x14b, 0x14a), (0x177, 0x176), (0x15f, 0x15e), (0x178, 0xff),
        (0x179, 0x17a), (0x17d, 0x17e), (0x17a, 0x179), (0x17e, 0x17d), (0x180, 0x243),
        (0x181, 0x253), (0x182, 0x183), (0x184, 0x185), (0x183, 0x182), (0x185, 0x184),
        (0x186, 0x254), (0x187, 0x188), (0x188, 0x187), (0x189, 0x256), (0x18a, 0x257),
        (0x18b, 0x18c), (0x18c, 0x18b), (0x18e, 0x1dd), (0x18f, 0x259), (0x190, 0x25b),
        (0x191, 0x192), (0x192, 0x191), (0x193, 0x260), (0x194, 0x263), (0x195, 0x1f6),
        (0x196, 0x269), (0x197, 0x268), (0x198, 0x199), (0x199, 0x198), (0x19a, 0x23d),
        (0x19b, 0xa7dc), (0x19c, 0x26f), (0x19d, 0x272), (0x19e, 0x220), (0x19f, 0x275),
        (0x1a0, 0x1a1), (0x1a4, 0x1a5), (0x1a1, 0x1a0), (0x1a5, 0x1a4), (0x1a6, 0x280),
        (0x1a7, 0x1a8), (0x1a8, 0x1a7), (0x1a9, 0x283), (0x1ac, 0x1ad), (0x1ad, 0x1ac),
        (0x1ae, 0x288), (0x1af, 0x1b0), (0x1b0, 0x1af), (0x1b1, 0x28a), (0x1b2, 0x28b),
        (0x1b3, 0x1b4), (0x1b5, 0x1b6), (0x1b4, 0x1b3), (0x1b6, 0x1b5), (0x1b7, 0x292),
        (0x1b8, 0x1b9), (0x1b9, 0x1b8), (0x1bc, 0x1bd), (0x1bd, 0x1bc), (0x1bf, 0x1f7),
        (0x1c4, 0x1c5), (0x1c5, 0x1c6), (0x1c4, 0x1c6), (0x1c5, 0x1c4), (0x1c6, 0x1c5),
        (0x1c6, 0x1c4), (0x1c7, 0x1c8), (0x1c8, 0x1c9), (0x1c7, 0x1c9), (0x1c8, 0x1c7),
        (0x1c9, 0x1c8), (0x1c9, 0x1c7), (0x1ca, 0x1cb), (0x1cb, 0x1cc), (0x1ca, 0x1cc),
        (0x1cb, 0x1ca), (0x1cc, 0x1cb), (0x1cc, 0x1ca), (0x1cd, 0x1ce), (0x1db, 0x1dc),
        (0x1d1, 0x1d2), (0x1ce, 0x1cd), (0x1dc, 0x1db), (0x1d2, 0x1d1), (0x1dd, 0x18e),
        (0x1de, 0x1df), (0x1ee, 0x1ef), (0x1e6, 0x1e7), (0x1df, 0x1de), (0x1ef, 0x1ee),
        (0x1e7, 0x1e6), (0x1f1, 0x1f2), (0x1f2, 0x1f3), (0x1f1, 0x1f3), (0x1f2, 0x1f1),
        (0x1f3, 0x1f2), (0x1f3, 0x1f1), (0x1f4, 0x1f5), (0x1f5, 0x1f4), (0x1f6, 0x195),
        (0x1f7, 0x1bf), (0x1f8, 0x1f9), (0x21e, 0x21f), (0x208, 0x209), (0x1f9, 0x1f8),
        (0x21f, 0x21e), (0x209, 0x208), (0x220, 0x19e), (0x222, 0x223), (0x232, 0x233),
        (0x22a, 0x22b), (0x223, 0x222), (0x233, 0x232), (0x22b, 0x22a), (0x23a, 0x2c65),
        (0x23b, 0x23c), (0x23c, 0x23b), (0x23d, 0x19a), (0x23e, 0x2c66), (0x23f, 0x2c7e),
        (0x240, 0x2c7f), (0x241, 0x242), (0x242, 0x241), (0x243, 0x180), (0x244, 0x289),
        (0x245, 0x28c), (0x246, 0x247), (0x24e, 0x24f), (0x24a, 0x24b), (0x247, 0x246),
        (0x24f, 0x24e), (0x24b, 0x24a), (0x250, 0x2c6f), (0x251, 0x2c6d), (0x252, 0x2c70),
        (0x253, 0x181), (0x254, 0x186), (0x256, 0x189), (0x257, 0x18a), (0x259, 0x18f),
        (0x25b, 0x190), (0x25c, 0xa7ab), (0x260, 0x193), (0x261, 0xa7ac), (0x263, 0x194),
        (0x264, 0xa7cb), (0x265, 0xa78d), (0x266, 0xa7aa), (0x268, 0x197), (0x269, 0x196),
        (0x26a, 0xa7ae), (0x26b, 0x2c62), (0x26c, 0xa7ad), (0x26f, 0x19c), (0x271, 0x2c6e),
        (0x272, 0x19d), (0x275, 0x19f), (0x27d, 0x2c64), (0x280, 0x1a6), (0x282, 0xa7c5),
        (0x283, 0x1a9), (0x287, 0xa7b1), (0x288, 0x1ae), (0x289, 0x244), (0x28a, 0x1b1),
        (0x28b, 0x1b2), (0x28c, 0x245), (0x292, 0x1b7), (0x29d, 0xa7b2), (0x29e, 0xa7b0),
        (0x345, 0x399), (0x345, 0x3b9), (0x345, 0x1fbe), (0x370, 0x371), (0x372, 0x373),
        (0x371, 0x370), (0x373, 0x372), (0x376, 0x377), (0x377, 0x376), (0x37b, 0x3fd),
        (0x37d, 0x3ff), (0x37f, 0x3f3), (0x386, 0x3ac), (0x388, 0x3ad), (0x38a, 0x3af),
        (0x38c, 0x3cc), (0x38e, 0x3cd), (0x38f, 0x3ce), (0x391, 0x3b1), (0x3a1, 0x3c1),
        (0x399, 0x3b9), (0x392, 0x3d0), (0x395, 0x3f5), (0x398, 0x3d1), (0x399, 0x345),
        (0x399, 0x1fbe), (0x39a, 0x3f0), (0x39c, 0xb5), (0x3a0, 0x3d6), (0x3a1, 0x3f1),
        (0x3a3, 0x3c2), (0x3a3, 0x3c3), (0x3ab, 0x3cb), (0x3a7, 0x3c7), (0x3a6, 0x3d5),
        (0x3ac, 0x386), (0x3ad, 0x388), (0x3af, 0x38a), (0x3b1, 0x391), (0x3c1, 0x3a1),
        (0x3b9, 0x399), (0x3b2, 0x3d0), (0x3b5, 0x3f5), (0x3b8, 0x3d1), (0x3b9, 0x345),
        (0x3b9, 0x1fbe), (0x3ba, 0x3f0), (0x3bc, 0xb5), (0x3c0, 0x3d6), (0x3c1, 0x3f1),
        (0x3c2, 0x3a3), (0x3c2, 0x3c3), (0x3c3, 0x3a3), (0x3cb, 0x3ab), (0x3c7, 0x3a7),
        (0x3c3, 0x3c2), (0x3c6, 0x3d5), (0x3cc, 0x38c), (0x3cd, 0x38e), (0x3ce, 0x38f),
        (0x3cf, 0x3d7), (0x3d0, 0x392), (0x3d0, 0x3b2), (0x3d1, 0x398), (0x3d1, 0x3b8),
        (0x3d5, 0x3a6), (0x3d5, 0x3c6), (0x3d6, 0x3a0), (0x3d6, 0x3c0), (0x3d7, 0x3cf),
        (0x3d8, 0x3d9), (0x3ee, 0x3ef), (0x3e0, 0x3e1), (0x3d9, 0x3d8), (0x3ef, 0x3ee),
        (0x3e1, 0x3e0), (0x3f0, 0x39a), (0x3f0, 0x3ba), (0x3f1, 0x3a1), (0x3f1, 0x3c1),
        (0x3f2, 0x3f9), (0x3f3, 0x37f), (0x3f5, 0x395), (0x3f5, 0x3b5), (0x3f7, 0x3f8),
        (0x3f8, 0x3f7), (0x3f9, 0x3f2), (0x3fa, 0x3fb), (0x3fb, 0x3fa), (0x3fd, 0x37b),
        (0x3ff, 0x37d), (0x400, 0x450), (0x40f, 0x45f), (0x406, 0x456), (0x410, 0x430),
        (0x42f, 0x44f), (0x41e, 0x43e), (0x412, 0x1c80), (0x414, 0x1c81), (0x41e, 0x1c82),
        (0x421, 0x1c83), (0x422, 0x1c84), (0x422, 0x1c85), (0x42a, 0x1c86), (0x430, 0x410),
        (0x44f, 0x42f), (0x43e, 0x41e), (0x432, 0x1c80), (0x434, 0x1c81), (0x43e, 0x1c82),
        (0x441, 0x1c83), (0x442, 0x1c84), (0x442, 0x1c85), (0x44a, 0x1c86), (0x450, 0x400),
        (0x45f, 0x40f), (0x456, 0x406), (0x460, 0x461), (0x480, 0x481), (0x470, 0x471),
        (0x461, 0x460), (0x481, 0x480), (0x471, 0x470), (0x462, 0x1c87), (0x463, 0x1c87),
        (0x48a, 0x48b), (0x4be, 0x4bf), (0x4a2, 0x4a3), (0x48b, 0x48a), (0x4bf, 0x4be),
        (0x4a3, 0x4a2), (0x4c0, 0x4cf), (0x4c1, 0x4c2), (0x4cd, 0x4ce), (0x4c5, 0x4c6),
        (0x4c2, 0x4c1), (0x4ce, 0x4cd), (0x4c6, 0x4c5), (0x4cf, 0x4c0), (0x4d0, 0x4d1),
        (0x52e, 0x52f), (0x4fc, 0x4fd), (0x4d1, 0x4d0), (0x52f, 0x52e), (0x4fd, 0x4fc),
        (0x531, 0x561), (0x556, 0x586), (0x543, 0x573), (0x561, 0x531), (0x586, 0x556),
        (0x573, 0x543), (0x10a0, 0x2d00), (0x10c5, 0x2d25), (0x10b2, 0x2d12), (0x10c7, 0x2d27),
        (0x10cd, 0x2d2d), (0x10d0, 0x1c90), (0x10fa, 0x1cba), (0x10e4, 0x1ca4), (0x10fd, 0x1cbd),
        (0x10ff, 0x1cbf), (0x13a0, 0xab70), (0x13ef, 0xabbf), (0x13c6, 0xab96), (0x13f0, 0x13f8),
        (0x13f5, 0x13fd), (0x13f2, 0x13fa), (0x13f8, 0x13f0), (0x13fd, 0x13f5), (0x13fa, 0x13f2),
        (0x1c80, 0x412), (0x1c80, 0x432), (0x1c81, 0x414), (0x1c81, 0x434), (0x1c82, 0x41e),
        (0x1c82, 0x43e), (0x1c83, 0x421), (0x1c84, 0x422), (0x1c83, 0x441), (0x1c84, 0x442),
        (0x1c84, 0x1c85), (0x1c85, 0x422), (0x1c85, 0x442), (0x1c85, 0x1c84), (0x1c86, 0x42a),
        (0x1c86, 0x44a), (0x1c87, 0x462), (0x1c87, 0x463), (0x1c88, 0xa64a), (0x1c88, 0xa64b),
        (0x1c89, 0x1c8a), (0x1c8a, 0x1c89), (0x1c90, 0x10d0), (0x1cba, 0x10fa), (0x1ca4, 0x10e4),
        (0x1cbd, 0x10fd), (0x1cbf, 0x10ff), (0x1d79, 0xa77d), (0x1d7d, 0x2c63), (0x1d8e, 0xa7c6),
        (0x1e00, 0x1e01), (0x1e94, 0x1e95), (0x1e48, 0x1e49), (0x1e01, 0x1e00), (0x1e95, 0x1e94),
        (0x1e49, 0x1e48), (0x1e60, 0x1e9b), (0x1e61, 0x1e9b), (0x1e9b, 0x1e60), (0x1e9b, 0x1e61),
        (0x1ea0, 0x1ea1), (0x1efe, 0x1eff), (0x1ecc, 0x1ecd), (0x1ea1, 0x1ea0), (0x1eff, 0x1efe),
        (0x1ecd, 0x1ecc), (0x1f00, 0x1f08), (0x1f07, 0x1f0f), (0x1f02, 0x1f0a), (0x1f08, 0x1f00),
        (0x1f0f, 0x1f07), (0x1f0a, 0x1f02), (0x1f10, 0x1f18), (0x1f15, 0x1f1d), (0x1f12, 0x1f1a),
        (0x1f18, 0x1f10), (0x1f1d, 0x1f15), (0x1f1a, 0x1f12), (0x1f20, 0x1f28), (0x1f27, 0x1f2f),
        (0x1f22, 0x1f2a), (0x1f28, 0x1f20), (0x1f2f, 0x1f27), (0x1f2a, 0x1f22), (0x1f30, 0x1f38),
        (0x1f37, 0x1f3f), (0x1f32, 0x1f3a), (0x1f38, 0x1f30), (0x1f3f, 0x1f37), (0x1f3a, 0x1f32),
        (0x1f40, 0x1f48), (0x1f45, 0x1f4d), (0x1f42, 0x1f4a), (0x1f48, 0x1f40), (0x1f4d, 0x1f45),
        (0x1f4a, 0x1f42), (0x1f51, 0x1f59), (0x1f57, 0x1f5f), (0x1f59, 0x1f51), (0x1f5f, 0x1f57),
        (0x1f60, 0x1f68), (0x1f67, 0x1f6f), (0x1f62, 0x1f6a), (0x1f68, 0x1f60), (0x1f6f, 0x1f67),
        (0x1f6a, 0x1f62), (0x1f70, 0x1fba), (0x1f71, 0x1fbb), (0x1f72, 0x1fc8), (0x1f75, 0x1fcb),
        (0x1f76, 0x1fda), (0x1f77, 0x1fdb), (0x1f78, 0x1ff8), (0x1f79, 0x1ff9), (0x1f7a, 0x1fea),
        (0x1f7b, 0x1feb), (0x1f7c, 0x1ffa), (0x1f7d, 0x1ffb), (0x1fb0, 0x1fb8), (0x1fb1, 0x1fb9),
        (0x1fb8, 0x1fb0), (0x1fb9, 0x1fb1), (0x1fba, 0x1f70), (0x1fbb, 0x1f71), (0x1fbe, 0x345),
        (0x1fbe, 0x399), (0x1fbe, 0x3b9), (0x1fc8, 0x1f72), (0x1fcb, 0x1f75), (0x1fd0, 0x1fd8),
        (0x1fd1, 0x1fd9), (0x1fd8, 0x1fd0), (0x1fd9, 0x1fd1), (0x1fda, 0x1f76), (0x1fdb, 0x1f77),
        (0x1fe0, 0x1fe8), (0x1fe1, 0x1fe9), (0x1fe5, 0x1fec), (0x1fe8, 0x1fe0), (0x1fe9, 0x1fe1),
        (0x1fea, 0x1f7a), (0x1feb, 0x1f7b), (0x1fec, 0x1fe5), (0x1ff8, 0x1f78), (0x1ff9, 0x1f79),
        (0x1ffa, 0x1f7c), (0x1ffb, 0x1f7d), (0x2132, 0x214e), (0x214e, 0x2132), (0x2160, 0x2170),
        (0x216f, 0x217f), (0x2166, 0x2176), (0x2170, 0x2160), (0x217f, 0x216f), (0x2176, 0x2166),
        (0x2183, 0x2184), (0x2184, 0x2183), (0x24b6, 0x24d0), (0x24cf, 0x24e9), (0x24c2, 0x24dc),
        (0x24d0, 0x24b6), (0x24e9, 0x24cf), (0x24dc, 0x24c2), (0x2c00, 0x2c30), (0x2c2f, 0x2c5f),
        (0x2c16, 0x2c46), (0x2c30, 0x2c00), (0x2c5f, 0x2c2f), (0x2c46, 0x2c16), (0x2c60, 0x2c61),
        (0x2c61, 0x2c60), (0x2c62, 0x26b), (0x2c63, 0x1d7d), (0x2c64, 0x27d), (0x2c65, 0x23a),
        (0x2c66, 0x23e), (0x2c67, 0x2c68), (0x2c6b, 0x2c6c), (0x2c68, 0x2c67), (0x2c6c, 0x2c6b),
        (0x2c6d, 0x251), (0x2c6e, 0x271), (0x2c6f, 0x250), (0x2c70, 0x252), (0x2c72, 0x2c73),
        (0x2c73, 0x2c72), (0x2c75, 0x2c76), (0x2c76, 0x2c75), (0x2c7e, 0x23f), (0x2c7f, 0x240),
        (0x2c80, 0x2c81), (0x2ce2, 0x2ce3), (0x2cb0, 0x2cb1), (0x2c81, 0x2c80), (0x2ce3, 0x2ce2),
        (0x2cb1, 0x2cb0), (0x2ceb, 0x2cec), (0x2ced, 0x2cee), (0x2cec, 0x2ceb), (0x2cee, 0x2ced),
        (0x2cf2, 0x2cf3), (0x2cf3, 0x2cf2), (0x2d00, 0x10a0), (0x2d25, 0x10c5), (0x2d12, 0x10b2),
        (0x2d27, 0x10c7), (0x2d2d, 0x10cd), (0xa640, 0xa641), (0xa66c, 0xa66d), (0xa654, 0xa655),
        (0xa641, 0xa640), (0xa66d, 0xa66c), (0xa655, 0xa654), (0xa64a, 0x1c88), (0xa64b, 0x1c88),
        (0xa680, 0xa681), (0xa69a, 0xa69b), (0xa68c, 0xa68d), (0xa681, 0xa680), (0xa69b, 0xa69a),
        (0xa68d, 0xa68c), (0xa722, 0xa723), (0xa72e, 0xa72f), (0xa726, 0xa727), (0xa723, 0xa722),
        (0xa72f, 0xa72e), (0xa727, 0xa726), (0xa732, 0xa733), (0xa76e, 0xa76f), (0xa74e, 0xa74f),
        (0xa733, 0xa732), (0xa76f, 0xa76e), (0xa74f, 0xa74e), (0xa779, 0xa77a), (0xa77b, 0xa77c),
        (0xa77a, 0xa779), (0xa77c, 0xa77b), (0xa77d, 0x1d79), (0xa77e, 0xa77f), (0xa786, 0xa787),
        (0xa782, 0xa783), (0xa77f, 0xa77e), (0xa787, 0xa786), (0xa783, 0xa782), (0xa78b, 0xa78c),
        (0xa78c, 0xa78b), (0xa78d, 0x265), (0xa790, 0xa791), (0xa792, 0xa793), (0xa791, 0xa790),
        (0xa793, 0xa792), (0xa794, 0xa7c4), (0xa796, 0xa797), (0xa7a8, 0xa7a9), (0xa79e, 0xa79f),
        (0xa797, 0xa796), (0xa7a9, 0xa7a8), (0xa79f, 0xa79e), (0xa7aa, 0x266), (0xa7ab, 0x25c),
        (0xa7ac, 0x261), (0xa7ad, 0x26c), (0xa7ae, 0x26a), (0xa7b0, 0x29e), (0xa7b1, 0x287),
        (0xa7b2, 0x29d), (0xa7b3, 0xab53), (0xa7b4, 0xa7b5), (0xa7c2, 0xa7c3), (0xa7b8, 0xa7b9),
        (0xa7b5, 0xa7b4), (0xa7c3, 0xa7c2), (0xa7b9, 0xa7b8), (0xa7c4, 0xa794), (0xa7c5, 0x282),
        (0xa7c6, 0x1d8e), (0xa7c7, 0xa7c8), (0xa7c9, 0xa7ca), (0xa7c8, 0xa7c7), (0xa7ca, 0xa7c9),
        (0xa7cb, 0x264), (0xa7cc, 0xa7cd), (0xa7da, 0xa7db), (0xa7d0, 0xa7d1), (0xa7cd, 0xa7cc),
        (0xa7db, 0xa7da), (0xa7d1, 0xa7d0), (0xa7dc, 0x19b), (0xa7f5, 0xa7f6), (0xa7f6, 0xa7f5),
        (0xab53, 0xa7b3), (0xab70, 0x13a0), (0xabbf, 0x13ef), (0xab96, 0x13c6), (0xff21, 0xff41),
        (0xff3a, 0xff5a), (0xff2d, 0xff4d), (0xff41, 0xff21), (0xff5a, 0xff3a), (0xff4d, 0xff2d),
    ];
    for (a, b) in pairs {
        assert_eq!(same("i", a, b), true, "{:x} and {:x}", a, b);
    }
}

#[test]
fn the_same_letters_are_paired_with_the_unicode_flag() {
    let pairs: [(u32, u32); 664] = [
        (0x41, 0x61), (0x5a, 0x7a), (0x4d, 0x6d), (0x61, 0x41), (0x7a, 0x5a), (0x6d, 0x4d),
        (0xb5, 0x39c), (0xb5, 0x3bc), (0xc0, 0xe0), (0xd6, 0xf6), (0xca, 0xea), (0xd8, 0xf8),
        (0xde, 0xfe), (0xda, 0xfa), (0xe0, 0xc0), (0xf6, 0xd6), (0xea, 0xca), (0xf8, 0xd8),
        (0xfe, 0xde), (0xfa, 0xda), (0xff, 0x178), (0x100, 0x101), (0x12e, 0x12f), (0x114, 0x115),
        (0x101, 0x100), (0x12f, 0x12e), (0x115, 0x114), (0x132, 0x133), (0x136, 0x137),
        (0x133, 0x132), (0x137, 0x136), (0x139, 0x13a), (0x147, 0x148), (0x13d, 0x13e),
        (0x13a, 0x139), (0x148, 0x147), (0x13e, 0x13d), (0x14a, 0x14b), (0x176, 0x177),
        (0x15e, 0x15f), (0x14b, 0x14a), (0x177, 0x176), (0x15f, 0x15e), (0x178, 0xff),
        (0x179, 0x17a), (0x17d, 0x17e), (0x17a, 0x179), (0x17e, 0x17d), (0x180, 0x243),
        (0x181, 0x253), (0x182, 0x183), (0x184, 0x185), (0x183, 0x182), (0x185, 0x184),
        (0x186, 0x254), (0x187, 0x188), (0x188, 0x187), (0x189, 0x256), (0x18a, 0x257),
        (0x18b, 0x18c), (0x18c, 0x18b), (0x18e, 0x1dd), (0x18f, 0x259), (0x190, 0x25b),
        (0x191, 0x192), (0x192, 0x191), (0x193, 0x260), (0x194, 0x263), (0x195, 0x1f6),
        (0x196, 0x269), (0x197, 0x268), (0x198, 0x199), (0x199, 0x198), (0x19a, 0x23d),
        (0x19b, 0xa7dc), (0x19c, 0x26f), (0x19d, 0x272), (0x19e, 0x220), (0x19f, 0x275),
        (0x1a0, 0x1a1), (0x1a4, 0x1a5), (0x1a1, 0x1a0), (0x1a5, 0x1a4), (0x1a6, 0x280),
        (0x1a7, 0x1a8), (0x1a8, 0x1a7), (0x1a9, 0x283), (0x1ac, 0x1ad), (0x1ad, 0x1ac),
        (0x1ae, 0x288), (0x1af, 0x1b0), (0x1b0, 0x1af), (0x1b1, 0x28a), (0x1b2, 0x28b),
        (0x1b3, 0x1b4), (0x1b5, 0x1b6), (0x1b4, 0x1b3), (0x1b6, 0x1b5), (0x1b7, 0x292),
        (0x1b8, 0x1b9), (0x1b9, 0x1b8), (0x1bc, 0x1bd), (0x1bd, 0x1bc), (0x1bf, 0x1f7),
        (0x1c4, 0x1c5), (0x1c5, 0x1c6), (0x1c4, 0x1c6), (0x1c5, 0x1c4), (0x1c6, 0x1c5),
        (0x1c6, 0x1c4), (0x1c7, 0x1c8), (0x1c8, 0x1c9), (0x1c7, 0x1c9), (0x1c8, 0x1c7),
        (0x1c9, 0x1c8), (0x1c9, 0x1c7), (0x1ca, 0x1cb), (0x1cb, 0x1cc), (0x1ca, 0x1cc),
        (0x1cb, 0x1ca), (0x1cc, 0x1cb), (0x1cc, 0x1ca), (0x1cd, 0x1ce), (0x1db, 0x1dc),
        (0x1d1, 0x1d2), (0x1ce, 0x1cd), (0x1dc, 0x1db), (0x1d2, 0x1d1), (0x1dd, 0x18e),
        (0x1de, 0x1df), (0x1ee, 0x1ef), (0x1e6, 0x1e7), (0x1df, 0x1de), (0x1ef, 0x1ee),
        (0x1e7, 0x1e6), (0x1f1, 0x1f2), (0x1f2, 0x1f3), (0x1f1, 0x1f3), (0x1f2, 0x1f1),
        (0x1f3, 0x1f2), (0x1f3, 0x1f1), (0x1f4, 0x1f5), (0x1f5, 0x1f4), (0x1f6, 0x195),
        (0x1f7, 0x1bf), (0x1f8, 0x1f9), (0x21e, 0x21f), (0x208, 0x209), (0x1f9, 0x1f8),
        (0x21f, 0x21e), (0x209, 0x208), (0x220, 0x19e), (0x222, 0x223), (0x232, 0x233),
        (0x22a, 0x22b), (0x223, 0x222), (0x233, 0x232), (0x22b, 0x22a), (0x23a, 0x2c65),
        (0x23b, 0x23c), (0x23c, 0x23b), (0x23d, 0x19a), (0x23e, 0x2c66), (0x23f, 0x2c7e),
        (0x240, 0x2c7f), (0x241, 0x242), (0x242, 0x241), (0x243, 0x180), (0x244, 0x289),
        (0x245, 0x28c), (0x246, 0x247), (0x24e, 0x24f), (0x24a, 0x24b), (0x247, 0x246),
        (0x24f, 0x24e), (0x24b, 0x24a), (0x250, 0x2c6f), (0x251, 0x2c6d), (0x252, 0x2c70),
        (0x253, 0x181), (0x254, 0x186), (0x256, 0x189), (0x257, 0x18a), (0x259, 0x18f),
        (0x25b, 0x190), (0x25c, 0xa7ab), (0x260, 0x193), (0x261, 0xa7ac), (0x263, 0x194),
        (0x264, 0xa7cb), (0x265, 0xa78d), (0x266, 0xa7aa), (0x268, 0x197), (0x269, 0x196),
        (0x26a, 0xa7ae), (0x26b, 0x2c62), (0x26c, 0xa7ad), (0x26f, 0x19c), (0x271, 0x2c6e),
        (0x272, 0x19d), (0x275, 0x19f), (0x27d, 0x2c64), (0x280, 0x1a6), (0x282, 0xa7c5),
        (0x283, 0x1a9), (0x287, 0xa7b1), (0x288, 0x1ae), (0x289, 0x244), (0x28a, 0x1b1),
        (0x28b, 0x1b2), (0x28c, 0x245), (0x292, 0x1b7), (0x29d, 0xa7b2), (0x29e, 0xa7b0),
        (0x345, 0x399), (0x345, 0x3b9), (0x345, 0x1fbe), (0x370, 0x371), (0x372, 0x373),
        (0x371, 0x370), (0x373, 0x372), (0x376, 0x377), (0x377, 0x376), (0x37b, 0x3fd),
        (0x37d, 0x3ff), (0x37f, 0x3f3), (0x386, 0x3ac), (0x388, 0x3ad), (0x38a, 0x3af),
        (0x38c, 0x3cc), (0x38e, 0x3cd), (0x38f, 0x3ce), (0x391, 0x3b1), (0x3a1, 0x3c1),
        (0x399, 0x3b9), (0x392, 0x3d0), (0x395, 0x3f5), (0x398, 0x3d1), (0x399, 0x345),
        (0x399, 0x1fbe), (0x39a, 0x3f0), (0x39c, 0xb5), (0x3a0, 0x3d6), (0x3a1, 0x3f1),
        (0x3a3, 0x3c2), (0x3a3, 0x3c3), (0x3ab, 0x3cb), (0x3a7, 0x3c7), (0x3a6, 0x3d5),
        (0x3ac, 0x386), (0x3ad, 0x388), (0x3af, 0x38a), (0x3b1, 0x391), (0x3c1, 0x3a1),
        (0x3b9, 0x399), (0x3b2, 0x3d0), (0x3b5, 0x3f5), (0x3b8, 0x3d1), (0x3b9, 0x345),
        (0x3b9, 0x1fbe), (0x3ba, 0x3f0), (0x3bc, 0xb5), (0x3c0, 0x3d6), (0x3c1, 0x3f1),
        (0x3c2, 0x3a3), (0x3c2, 0x3c3), (0x3c3, 0x3a3), (0x3cb, 0x3ab), (0x3c7, 0x3a7),
        (0x3c3, 0x3c2), (0x3c6, 0x3d5), (0x3cc, 0x38c), (0x3cd, 0x38e), (0x3ce, 0x38f),
        (0x3cf, 0x3d7), (0x3d0, 0x392), (0x3d0, 0x3b2), (0x3d1, 0x398), (0x3d1, 0x3b8),
        (0x3d5, 0x3a6), (0x3d5, 0x3c6), (0x3d6, 0x3a0), (0x3d6, 0x3c0), (0x3d7, 0x3cf),
        (0x3d8, 0x3d9), (0x3ee, 0x3ef), (0x3e0, 0x3e1), (0x3d9, 0x3d8), (0x3ef, 0x3ee),
        (0x3e1, 0x3e0), (0x3f0, 0x39a), (0x3f0, 0x3ba), (0x3f1, 0x3a1), (0x3f1, 0x3c1),
        (0x3f2, 0x3f9), (0x3f3, 0x37f), (0x3f5, 0x395), (0x3f5, 0x3b5), (0x3f7, 0x3f8),
        (0x3f8, 0x3f7), (0x3f9, 0x3f2), (0x3fa, 0x3fb), (0x3fb, 0x3fa), (0x3fd, 0x37b),
        (0x3ff, 0x37d), (0x400, 0x450), (0x40f, 0x45f), (0x406, 0x456), (0x410, 0x430),
        (0x42f, 0x44f), (0x41e, 0x43e), (0x412, 0x1c80), (0x414, 0x1c81), (0x41e, 0x1c82),
        (0x421, 0x1c83), (0x422, 0x1c84), (0x422, 0x1c85), (0x42a, 0x1c86), (0x430, 0x410),
        (0x44f, 0x42f), (0x43e, 0x41e), (0x432, 0x1c80), (0x434, 0x1c81), (0x43e, 0x1c82),
        (0x441, 0x1c83), (0x442, 0x1c84), (0x442, 0x1c85), (0x44a, 0x1c86), (0x450, 0x400),
        (0x45f, 0x40f), (0x456, 0x406), (0x460, 0x461), (0x480, 0x481), (0x470, 0x471),
        (0x461, 0x460), (0x481, 0x480), (0x471, 0x470), (0x462, 0x1c87), (0x463, 0x1c87),
        (0x48a, 0x48b), (0x4be, 0x4bf), (0x4a2, 0x4a3), (0x48b, 0x48a), (0x4bf, 0x4be),
        (0x4a3, 0x4a2), (0x4c0, 0x4cf), (0x4c1, 0x4c2), (0x4cd, 0x4ce), (0x4c5, 0x4c6),
        (0x4c2, 0x4c1), (0x4ce, 0x4cd), (0x4c6, 0x4c5), (0x4cf, 0x4c0), (0x4d0, 0x4d1),
        (0x52e, 0x52f), (0x4fc, 0x4fd), (0x4d1, 0x4d0), (0x52f, 0x52e), (0x4fd, 0x4fc),
        (0x531, 0x561), (0x556, 0x586), (0x543, 0x573), (0x561, 0x531), (0x586, 0x556),
        (0x573, 0x543), (0x10a0, 0x2d00), (0x10c5, 0x2d25), (0x10b2, 0x2d12), (0x10c7, 0x2d27),
        (0x10cd, 0x2d2d), (0x10d0, 0x1c90), (0x10fa, 0x1cba), (0x10e4, 0x1ca4), (0x10fd, 0x1cbd),
        (0x10ff, 0x1cbf), (0x13a0, 0xab70), (0x13ef, 0xabbf), (0x13c6, 0xab96), (0x13f0, 0x13f8),
        (0x13f5, 0x13fd), (0x13f2, 0x13fa), (0x13f8, 0x13f0), (0x13fd, 0x13f5), (0x13fa, 0x13f2),
        (0x1c80, 0x412), (0x1c80, 0x432), (0x1c81, 0x414), (0x1c81, 0x434), (0x1c82, 0x41e),
        (0x1c82, 0x43e), (0x1c83, 0x421), (0x1c84, 0x422), (0x1c83, 0x441), (0x1c84, 0x442),
        (0x1c84, 0x1c85), (0x1c85, 0x422), (0x1c85, 0x442), (0x1c85, 0x1c84), (0x1c86, 0x42a),
        (0x1c86, 0x44a), (0x1c87, 0x462), (0x1c87, 0x463), (0x1c88, 0xa64a), (0x1c88, 0xa64b),
        (0x1c89, 0x1c8a), (0x1c8a, 0x1c89), (0x1c90, 0x10d0), (0x1cba, 0x10fa), (0x1ca4, 0x10e4),
        (0x1cbd, 0x10fd), (0x1cbf, 0x10ff), (0x1d79, 0xa77d), (0x1d7d, 0x2c63), (0x1d8e, 0xa7c6),
        (0x1e00, 0x1e01), (0x1e94, 0x1e95), (0x1e48, 0x1e49), (0x1e01, 0x1e00), (0x1e95, 0x1e94),
        (0x1e49, 0x1e48), (0x1e60, 0x1e9b), (0x1e61, 0x1e9b), (0x1e9b, 0x1e60), (0x1e9b, 0x1e61),
        (0x1ea0, 0x1ea1), (0x1efe, 0x1eff), (0x1ecc, 0x1ecd), (0x1ea1, 0x1ea0), (0x1eff, 0x1efe),
        (0x1ecd, 0x1ecc), (0x1f00, 0x1f08), (0x1f07, 0x1f0f), (0x1f02, 0x1f0a), (0x1f08, 0x1f00),
        (0x1f0f, 0x1f07), (0x1f0a, 0x1f02), (0x1f10, 0x1f18), (0x1f15, 0x1f1d), (0x1f12, 0x1f1a),
        (0x1f18, 0x1f10), (0x1f1d, 0x1f15), (0x1f1a, 0x1f12), (0x1f20, 0x1f28), (0x1f27, 0x1f2f),
        (0x1f22, 0x1f2a), (0x1f28, 0x1f20), (0x1f2f, 0x1f27), (0x1f2a, 0x1f22), (0x1f30, 0x1f38),
        (0x1f37, 0x1f3f), (0x1f32, 0x1f3a), (0x1f38, 0x1f30), (0x1f3f, 0x1f37), (0x1f3a, 0x1f32),
        (0x1f40, 0x1f48), (0x1f45, 0x1f4d), (0x1f42, 0x1f4a), (0x1f48, 0x1f40), (0x1f4d, 0x1f45),
        (0x1f4a, 0x1f42), (0x1f51, 0x1f59), (0x1f57, 0x1f5f), (0x1f59, 0x1f51), (0x1f5f, 0x1f57),
        (0x1f60, 0x1f68), (0x1f67, 0x1f6f), (0x1f62, 0x1f6a), (0x1f68, 0x1f60), (0x1f6f, 0x1f67),
        (0x1f6a, 0x1f62), (0x1f70, 0x1fba), (0x1f71, 0x1fbb), (0x1f72, 0x1fc8), (0x1f75, 0x1fcb),
        (0x1f76, 0x1fda), (0x1f77, 0x1fdb), (0x1f78, 0x1ff8), (0x1f79, 0x1ff9), (0x1f7a, 0x1fea),
        (0x1f7b, 0x1feb), (0x1f7c, 0x1ffa), (0x1f7d, 0x1ffb), (0x1fb0, 0x1fb8), (0x1fb1, 0x1fb9),
        (0x1fb8, 0x1fb0), (0x1fb9, 0x1fb1), (0x1fba, 0x1f70), (0x1fbb, 0x1f71), (0x1fbe, 0x345),
        (0x1fbe, 0x399), (0x1fbe, 0x3b9), (0x1fc8, 0x1f72), (0x1fcb, 0x1f75), (0x1fd0, 0x1fd8),
        (0x1fd1, 0x1fd9), (0x1fd8, 0x1fd0), (0x1fd9, 0x1fd1), (0x1fda, 0x1f76), (0x1fdb, 0x1f77),
        (0x1fe0, 0x1fe8), (0x1fe1, 0x1fe9), (0x1fe5, 0x1fec), (0x1fe8, 0x1fe0), (0x1fe9, 0x1fe1),
        (0x1fea, 0x1f7a), (0x1feb, 0x1f7b), (0x1fec, 0x1fe5), (0x1ff8, 0x1f78), (0x1ff9, 0x1f79),
        (0x1ffa, 0x1f7c), (0x1ffb, 0x1f7d), (0x2132, 0x214e), (0x214e, 0x2132), (0x2160, 0x2170),
        (0x216f, 0x217f), (0x2166, 0x2176), (0x2170, 0x2160), (0x217f, 0x216f), (0x2176, 0x2166),
        (0x2183, 0x2184), (0x2184, 0x2183), (0x24b6, 0x24d0), (0x24cf, 0x24e9), (0x24c2, 0x24dc),
        (0x24d0, 0x24b6), (0x24e9, 0x24cf), (0x24dc, 0x24c2), (0x2c00, 0x2c30), (0x2c2f, 0x2c5f),
        (0x2c16, 0x2c46), (0x2c30, 0x2c00), (0x2c5f, 0x2c2f), (0x2c46, 0x2c16), (0x2c60, 0x2c61),
        (0x2c61, 0x2c60), (0x2c62, 0x26b), (0x2c63, 0x1d7d), (0x2c64, 0x27d), (0x2c65, 0x23a),
        (0x2c66, 0x23e), (0x2c67, 0x2c68), (0x2c6b, 0x2c6c), (0x2c68, 0x2c67), (0x2c6c, 0x2c6b),
        (0x2c6d, 0x251), (0x2c6e, 0x271), (0x2c6f, 0x250), (0x2c70, 0x252), (0x2c72, 0x2c73),
        (0x2c73, 0x2c72), (0x2c75, 0x2c76), (0x2c76, 0x2c75), (0x2c7e, 0x23f), (0x2c7f, 0x240),
        (0x2c80, 0x2c81), (0x2ce2, 0x2ce3), (0x2cb0, 0x2cb1), (0x2c81, 0x2c80), (0x2ce3, 0x2ce2),
        (0x2cb1, 0x2cb0), (0x2ceb, 0x2cec), (0x2ced, 0x2cee), (0x2cec, 0x2ceb), (0x2cee, 0x2ced),
        (0x2cf2, 0x2cf3), (0x2cf3, 0x2cf2), (0x2d00, 0x10a0), (0x2d25, 0x10c5), (0x2d12, 0x10b2),
        (0x2d27, 0x10c7), (0x2d2d, 0x10cd), (0xa640, 0xa641), (0xa66c, 0xa66d), (0xa654, 0xa655),
        (0xa641, 0xa640), (0xa66d, 0xa66c), (0xa655, 0xa654), (0xa64a, 0x1c88), (0xa64b, 0x1c88),
        (0xa680, 0xa681), (0xa69a, 0xa69b), (0xa68c, 0xa68d), (0xa681, 0xa680), (0xa69b, 0xa69a),
        (0xa68d, 0xa68c), (0xa722, 0xa723), (0xa72e, 0xa72f), (0xa726, 0xa727), (0xa723, 0xa722),
        (0xa72f, 0xa72e), (0xa727, 0xa726), (0xa732, 0xa733), (0xa76e, 0xa76f), (0xa74e, 0xa74f),
        (0xa733, 0xa732), (0xa76f, 0xa76e), (0xa74f, 0xa74e), (0xa779, 0xa77a), (0xa77b, 0xa77c),
        (0xa77a, 0xa779), (0xa77c, 0xa77b), (0xa77d, 0x1d79), (0xa77e, 0xa77f), (0xa786, 0xa787),
        (0xa782, 0xa783), (0xa77f, 0xa77e), (0xa787, 0xa786), (0xa783, 0xa782), (0xa78b, 0xa78c),
        (0xa78c, 0xa78b), (0xa78d, 0x265), (0xa790, 0xa791), (0xa792, 0xa793), (0xa791, 0xa790),
        (0xa793, 0xa792), (0xa794, 0xa7c4), (0xa796, 0xa797), (0xa7a8, 0xa7a9), (0xa79e, 0xa79f),
        (0xa797, 0xa796), (0xa7a9, 0xa7a8), (0xa79f, 0xa79e), (0xa7aa, 0x266), (0xa7ab, 0x25c),
        (0xa7ac, 0x261), (0xa7ad, 0x26c), (0xa7ae, 0x26a), (0xa7b0, 0x29e), (0xa7b1, 0x287),
        (0xa7b2, 0x29d), (0xa7b3, 0xab53), (0xa7b4, 0xa7b5), (0xa7c2, 0xa7c3), (0xa7b8, 0xa7b9),
        (0xa7b5, 0xa7b4), (0xa7c3, 0xa7c2), (0xa7b9, 0xa7b8), (0xa7c4, 0xa794), (0xa7c5, 0x282),
        (0xa7c6, 0x1d8e), (0xa7c7, 0xa7c8), (0xa7c9, 0xa7ca), (0xa7c8, 0xa7c7), (0xa7ca, 0xa7c9),
        (0xa7cb, 0x264), (0xa7cc, 0xa7cd), (0xa7da, 0xa7db), (0xa7d0, 0xa7d1), (0xa7cd, 0xa7cc),
        (0xa7db, 0xa7da), (0xa7d1, 0xa7d0), (0xa7dc, 0x19b), (0xa7f5, 0xa7f6), (0xa7f6, 0xa7f5),
        (0xab53, 0xa7b3), (0xab70, 0x13a0), (0xabbf, 0x13ef), (0xab96, 0x13c6), (0xff21, 0xff41),
        (0xff3a, 0xff5a), (0xff2d, 0xff4d), (0xff41, 0xff21), (0xff5a, 0xff3a), (0xff4d, 0xff2d),
    ];
    for (a, b) in pairs {
        assert_eq!(same("iu", a, b), true, "{:x} and {:x}", a, b);
    }
}

#[test]
fn letters_paired_only_with_the_unicode_flag() {
    let pairs: [(u32, u32); 118] = [
        (0x4b, 0x212a), (0x53, 0x17f), (0x6b, 0x212a), (0x73, 0x17f), (0xc5, 0x212b),
        (0xdf, 0x1e9e), (0xe5, 0x212b), (0x17f, 0x53), (0x17f, 0x73), (0x398, 0x3f4),
        (0x3a9, 0x2126), (0x3b8, 0x3f4), (0x3c9, 0x2126), (0x3d1, 0x3f4), (0x3f4, 0x398),
        (0x3f4, 0x3b8), (0x3f4, 0x3d1), (0x1e9e, 0xdf), (0x1f80, 0x1f88), (0x1f87, 0x1f8f),
        (0x1f82, 0x1f8a), (0x1f88, 0x1f80), (0x1f8f, 0x1f87), (0x1f8a, 0x1f82), (0x1f90, 0x1f98),
        (0x1f97, 0x1f9f), (0x1f92, 0x1f9a), (0x1f98, 0x1f90), (0x1f9f, 0x1f97), (0x1f9a, 0x1f92),
        (0x1fa0, 0x1fa8), (0x1fa7, 0x1faf), (0x1fa2, 0x1faa), (0x1fa8, 0x1fa0), (0x1faf, 0x1fa7),
        (0x1faa, 0x1fa2), (0x1fb3, 0x1fbc), (0x1fbc, 0x1fb3), (0x1fc3, 0x1fcc), (0x1fcc, 0x1fc3),
        (0x1ff3, 0x1ffc), (0x1ffc, 0x1ff3), (0x2126, 0x3a9), (0x2126, 0x3c9), (0x212a, 0x4b),
        (0x212a, 0x6b), (0x212b, 0xc5), (0x212b, 0xe5), (0x10400, 0x10428), (0x10427, 0x1044f),
        (0x10412, 0x1043a), (0x10428, 0x10400), (0x1044f, 0x10427), (0x1043a, 0x10412),
        (0x104b0, 0x104d8), (0x104d3, 0x104fb), (0x104c0, 0x104e8), (0x104d8, 0x104b0),
        (0x104fb, 0x104d3), (0x104e8, 0x104c0), (0x10570, 0x10597), (0x1057a, 0x105a1),
        (0x10574, 0x1059b), (0x1057c, 0x105a3), (0x1058a, 0x105b1), (0x10582, 0x105a9),
        (0x1058c, 0x105b3), (0x10592, 0x105b9), (0x1058e, 0x105b5), (0x10594, 0x105bb),
        (0x10595, 0x105bc), (0x10597, 0x10570), (0x105a1, 0x1057a), (0x1059b, 0x10574),
        (0x105a3, 0x1057c), (0x105b1, 0x1058a), (0x105a9, 0x10582), (0x105b3, 0x1058c),
        (0x105b9, 0x10592), (0x105b5, 0x1058e), (0x105bb, 0x10594), (0x105bc, 0x10595),
        (0x10c80, 0x10cc0), (0x10cb2, 0x10cf2), (0x10c98, 0x10cd8), (0x10cc0, 0x10c80),
        (0x10cf2, 0x10cb2), (0x10cd8, 0x10c98), (0x10d50, 0x10d70), (0x10d65, 0x10d85),
        (0x10d5a, 0x10d7a), (0x10d70, 0x10d50), (0x10d85, 0x10d65), (0x10d7a, 0x10d5a),
        (0x118a0, 0x118c0), (0x118bf, 0x118df), (0x118ae, 0x118ce), (0x118c0, 0x118a0),
        (0x118df, 0x118bf), (0x118ce, 0x118ae), (0x16e40, 0x16e60), (0x16e5f, 0x16e7f),
        (0x16e4e, 0x16e6e), (0x16e60, 0x16e40), (0x16e7f, 0x16e5f), (0x16e6e, 0x16e4e),
        (0x16ea0, 0x16ebb), (0x16eb8, 0x16ed3), (0x16eac, 0x16ec7), (0x16ebb, 0x16ea0),
        (0x16ed3, 0x16eb8), (0x16ec7, 0x16eac), (0x1e900, 0x1e922), (0x1e921, 0x1e943),
        (0x1e910, 0x1e932), (0x1e922, 0x1e900), (0x1e943, 0x1e921), (0x1e932, 0x1e910),
    ];
    for (a, b) in pairs {
        assert_eq!(same("iu", a, b), true, "{:x} and {:x}", a, b);
    }
}

#[test]
fn letters_not_paired_without_the_unicode_flag() {
    let pairs: [(u32, u32); 48] = [
        (0x4b, 0x212a), (0x53, 0x17f), (0x6b, 0x212a), (0x73, 0x17f), (0xc5, 0x212b),
        (0xdf, 0x1e9e), (0xe5, 0x212b), (0x17f, 0x53), (0x17f, 0x73), (0x398, 0x3f4),
        (0x3a9, 0x2126), (0x3b8, 0x3f4), (0x3c9, 0x2126), (0x3d1, 0x3f4), (0x3f4, 0x398),
        (0x3f4, 0x3b8), (0x3f4, 0x3d1), (0x1e9e, 0xdf), (0x1f80, 0x1f88), (0x1f87, 0x1f8f),
        (0x1f82, 0x1f8a), (0x1f88, 0x1f80), (0x1f8f, 0x1f87), (0x1f8a, 0x1f82), (0x1f90, 0x1f98),
        (0x1f97, 0x1f9f), (0x1f92, 0x1f9a), (0x1f98, 0x1f90), (0x1f9f, 0x1f97), (0x1f9a, 0x1f92),
        (0x1fa0, 0x1fa8), (0x1fa7, 0x1faf), (0x1fa2, 0x1faa), (0x1fa8, 0x1fa0), (0x1faf, 0x1fa7),
        (0x1faa, 0x1fa2), (0x1fb3, 0x1fbc), (0x1fbc, 0x1fb3), (0x1fc3, 0x1fcc), (0x1fcc, 0x1fc3),
        (0x1ff3, 0x1ffc), (0x1ffc, 0x1ff3), (0x2126, 0x3a9), (0x2126, 0x3c9), (0x212a, 0x4b),
        (0x212a, 0x6b), (0x212b, 0xc5), (0x212b, 0xe5),
    ];
    for (a, b) in pairs {
        assert_eq!(same("i", a, b), false, "{:x} and {:x}", a, b);
    }
}

#[test]
fn no_letters_are_paired_when_case_counts() {
    let pairs: [(u32, u32); 60] = [
        (0x41, 0x61), (0x5a, 0x7a), (0x4d, 0x6d), (0x61, 0x41), (0x7a, 0x5a), (0x6d, 0x4d),
        (0xb5, 0x39c), (0xb5, 0x3bc), (0xc0, 0xe0), (0xd6, 0xf6), (0xca, 0xea), (0xd8, 0xf8),
        (0xde, 0xfe), (0xda, 0xfa), (0xe0, 0xc0), (0xf6, 0xd6), (0xea, 0xca), (0xf8, 0xd8),
        (0xfe, 0xde), (0xfa, 0xda), (0xff, 0x178), (0x100, 0x101), (0x12e, 0x12f), (0x114, 0x115),
        (0x101, 0x100), (0x12f, 0x12e), (0x115, 0x114), (0x132, 0x133), (0x136, 0x137),
        (0x133, 0x132), (0x137, 0x136), (0x139, 0x13a), (0x147, 0x148), (0x13d, 0x13e),
        (0x13a, 0x139), (0x148, 0x147), (0x13e, 0x13d), (0x14a, 0x14b), (0x176, 0x177),
        (0x15e, 0x15f), (0x14b, 0x14a), (0x177, 0x176), (0x15f, 0x15e), (0x178, 0xff),
        (0x179, 0x17a), (0x17d, 0x17e), (0x17a, 0x179), (0x17e, 0x17d), (0x180, 0x243),
        (0x181, 0x253), (0x182, 0x183), (0x184, 0x185), (0x183, 0x182), (0x185, 0x184),
        (0x186, 0x254), (0x187, 0x188), (0x188, 0x187), (0x189, 0x256), (0x18a, 0x257),
        (0x18b, 0x18c),
    ];
    for (a, b) in pairs {
        assert_eq!(same("", a, b), false, "{:x} and {:x}", a, b);
    }
}

#[test]
fn no_letters_are_paired_when_case_counts_with_the_unicode_flag() {
    let pairs: [(u32, u32); 60] = [
        (0x4b, 0x212a), (0x53, 0x17f), (0x6b, 0x212a), (0x73, 0x17f), (0xc5, 0x212b),
        (0xdf, 0x1e9e), (0xe5, 0x212b), (0x17f, 0x53), (0x17f, 0x73), (0x398, 0x3f4),
        (0x3a9, 0x2126), (0x3b8, 0x3f4), (0x3c9, 0x2126), (0x3d1, 0x3f4), (0x3f4, 0x398),
        (0x3f4, 0x3b8), (0x3f4, 0x3d1), (0x1e9e, 0xdf), (0x1f80, 0x1f88), (0x1f87, 0x1f8f),
        (0x1f82, 0x1f8a), (0x1f88, 0x1f80), (0x1f8f, 0x1f87), (0x1f8a, 0x1f82), (0x1f90, 0x1f98),
        (0x1f97, 0x1f9f), (0x1f92, 0x1f9a), (0x1f98, 0x1f90), (0x1f9f, 0x1f97), (0x1f9a, 0x1f92),
        (0x1fa0, 0x1fa8), (0x1fa7, 0x1faf), (0x1fa2, 0x1faa), (0x1fa8, 0x1fa0), (0x1faf, 0x1fa7),
        (0x1faa, 0x1fa2), (0x1fb3, 0x1fbc), (0x1fbc, 0x1fb3), (0x1fc3, 0x1fcc), (0x1fcc, 0x1fc3),
        (0x1ff3, 0x1ffc), (0x1ffc, 0x1ff3), (0x2126, 0x3a9), (0x2126, 0x3c9), (0x212a, 0x4b),
        (0x212a, 0x6b), (0x212b, 0xc5), (0x212b, 0xe5), (0x10400, 0x10428), (0x10427, 0x1044f),
        (0x10412, 0x1043a), (0x10428, 0x10400), (0x1044f, 0x10427), (0x1043a, 0x10412),
        (0x104b0, 0x104d8), (0x104d3, 0x104fb), (0x104c0, 0x104e8), (0x104d8, 0x104b0),
        (0x104fb, 0x104d3), (0x104e8, 0x104c0),
    ];
    for (a, b) in pairs {
        assert_eq!(same("u", a, b), false, "{:x} and {:x}", a, b);
    }
}

#[test]
fn code_points_that_are_no_case_forms_of_each_other() {
    let pairs: [(u32, u32); 84] = [
        (0xdf, 0x53), (0xdf, 0x53), (0xdf, 0xff), (0xdf, 0xe0), (0xdf, 0xde), (0x130, 0x69),
        (0x130, 0x307), (0x130, 0x110), (0x130, 0x131), (0x130, 0x12f), (0x131, 0x49),
        (0x131, 0x111), (0x131, 0x132), (0x131, 0x130), (0x149, 0x2bc), (0x149, 0x4e),
        (0x149, 0x169), (0x149, 0x14a), (0x149, 0x148), (0x1f0, 0x4a), (0x1f0, 0x30c),
        (0x1f0, 0x1d0), (0x1f0, 0x1f1), (0x1f0, 0x1ef), (0x390, 0x399), (0x390, 0x308),
        (0x390, 0x301), (0x390, 0x3b0), (0x390, 0x391), (0x390, 0x38f), (0x3b0, 0x3a5),
        (0x3b0, 0x308), (0x3b0, 0x301), (0x3b0, 0x390), (0x3b0, 0x3b1), (0x3b0, 0x3af),
        (0x587, 0x535), (0x587, 0x552), (0x587, 0x5a7), (0x587, 0x588), (0x587, 0x586),
        (0x1e96, 0x48), (0x1e96, 0x331), (0x1e96, 0x1eb6), (0x1e96, 0x1e97), (0x1e96, 0x1e95),
        (0x1e9a, 0x41), (0x1e9a, 0x2be), (0x1e9a, 0x1eba), (0x1e9a, 0x1e9b), (0x1e9a, 0x1e99),
        (0xfb00, 0x46), (0xfb00, 0x46), (0xfb00, 0xfb20), (0xfb00, 0xfb01), (0xfb00, 0xfaff),
        (0xfb06, 0x53), (0xfb06, 0x54), (0xfb06, 0xfb26), (0xfb06, 0xfb07), (0x2127, 0x2107),
        (0x2127, 0x2128), (0x2127, 0x2126), (0x215f, 0x217f), (0x215f, 0x2160), (0x215f, 0x215e),
        (0x40, 0x60), (0x40, 0x41), (0x40, 0x3f), (0x5b, 0x7b), (0x5b, 0x5c), (0x5b, 0x5a),
        (0x60, 0x40), (0x60, 0x61), (0x60, 0x5f), (0x7b, 0x5b), (0x7b, 0x7c), (0x7b, 0x7a),
        (0xd7, 0xf7), (0xd7, 0xd8), (0xd7, 0xd6), (0xf7, 0xd7), (0xf7, 0xf8), (0xf7, 0xf6),
    ];
    for (a, b) in pairs {
        assert_eq!(same("i", a, b), false, "{:x} and {:x}", a, b);
    }
}

#[test]
fn ignore_case_beyond_ascii() {
    check("é", "i", "CAFÉ", 0, Some(vec![Some((3, 4))]));
    check("É", "i", "café", 0, Some(vec![Some((3, 4))]));
    check("straße", "i", "STRASSE", 0, None);
    check("straße", "i", "STRAßE", 0, Some(vec![Some((0, 6))]));
    check("ß", "i", "ẞ", 0, None);
    check("ß", "iu", "ẞ", 0, Some(vec![Some((0, 1))]));
    check("σ", "i", "ΟΔΟΣ", 0, Some(vec![Some((3, 4))]));
    check("ς", "i", "ΟΔΟΣ", 0, Some(vec![Some((3, 4))]));
    check("Σ", "i", "οδος", 0, Some(vec![Some((3, 4))]));
    check("σ", "i", "ς", 0, Some(vec![Some((0, 1))]));
    check("привет", "i", "ПРИВЕТ МИР", 0, Some(vec![Some((0, 6))]));
    check("ПРИВЕТ", "i", "привет", 0, Some(vec![Some((0, 6))]));
    check("k", "i", "K", 0, None);
    check("k", "iu", "K", 0, Some(vec![Some((0, 1))]));
    check("K", "iu", "k", 0, Some(vec![Some((0, 1))]));
    check("K", "iu", "K", 0, Some(vec![Some((0, 1))]));
    check("K", "i", "K", 0, None);
    check("s", "i", "ſ", 0, None);
    check("s", "iu", "ſ", 0, Some(vec![Some((0, 1))]));
    check("S", "iu", "ſ", 0, Some(vec![Some((0, 1))]));
    check("ſ", "iu", "S", 0, Some(vec![Some((0, 1))]));
    check("ſ", "i", "S", 0, None);
    check("i", "i", "İ", 0, None);
    check("i", "i", "ı", 0, None);
    check("I", "iu", "ı", 0, None);
    check("µ", "i", "Μ", 0, Some(vec![Some((0, 1))]));
    check("µ", "i", "μ", 0, Some(vec![Some((0, 1))]));
    check("μ", "iu", "µ", 0, Some(vec![Some((0, 1))]));
    check("ǅ", "i", "Ǆ", 0, Some(vec![Some((0, 1))]));
    check("ǅ", "i", "ǆ", 0, Some(vec![Some((0, 1))]));
    check("Ǆ", "iu", "ǆ", 0, Some(vec![Some((0, 1))]));
    check("Ω", "i", "ω", 0, None);
    check("Ω", "iu", "ω", 0, Some(vec![Some((0, 1))]));
    check("Ω", "iu", "Ω", 0, Some(vec![Some((0, 1))]));
    check("å", "iu", "Å", 0, Some(vec![Some((0, 1))]));
    check("å", "i", "Å", 0, None);
    check("𐐀", "iu", "𐐨", 0, Some(vec![Some((0, 1))]));
    check("𐐨", "iu", "𐐀", 0, Some(vec![Some((0, 1))]));
    check("𞤀", "iu", "𞤢", 0, Some(vec![Some((0, 1))]));
    check("θ", "iu", "ϴ", 0, Some(vec![Some((0, 1))]));
    check("θ", "i", "ϴ", 0, None);
    check("ϑ", "iu", "Θ", 0, Some(vec![Some((0, 1))]));
    check("ẞ", "iu", "ß", 0, Some(vec![Some((0, 1))]));
    check("ẞ", "i", "ß", 0, None);
    check("[a-z]+", "iu", "aKſz", 0, Some(vec![Some((0, 4))]));
    check("[a-z]+", "i", "aKſz", 0, Some(vec![Some((0, 1))]));
    check("[^a-z]+", "iu", "aKſz", 0, None);
    check("[^a-z]+", "i", "aKſz", 0, Some(vec![Some((1, 3))]));
    check("[à-å]+", "i", "xÀÁÂÃÄÅÆ", 0, Some(vec![Some((1, 7))]));
    check("[à-å]+", "iu", "ÅÀ", 0, Some(vec![Some((0, 2))]));
    check("[α-ω]+", "i", "ΑΒΓ ΣΤΥ", 0, Some(vec![Some((0, 3))]));
    check("[Α-Ω]+", "i", "αβγςστυ", 0, Some(vec![Some((0, 7))]));
    check("[^α-ω]+", "i", "ΑΒΓa", 0, Some(vec![Some((3, 4))]));
    check("[а-я]+", "i", "ПРИВЕТ", 0, Some(vec![Some((0, 6))]));
    check("[Ā-ſ]+", "i", "āĂăſs", 0, Some(vec![Some((0, 4))]));
    check("[ā]", "i", "Ā", 0, Some(vec![Some((0, 1))]));
    check("[^Ā]", "i", "ā", 0, None);
    check("\\w+", "iu", "ſK", 0, Some(vec![Some((0, 2))]));
    check("\\w+", "i", "ſK", 0, None);
    check("\\W+", "iu", "ſK", 0, None);
    check("\\W+", "i", "ſK", 0, Some(vec![Some((0, 2))]));
    check("[\\W]+", "iu", "ſKk", 0, None);
    check("[\\W]+", "iu", "sſ!", 0, Some(vec![Some((2, 3))]));
    check("[^\\W]+", "iu", "ſK", 0, Some(vec![Some((0, 2))]));
    check("[^\\w]+", "iu", "ſK!", 0, Some(vec![Some((2, 3))]));
    check("[\\w]+", "iu", "!ſK", 0, Some(vec![Some((1, 3))]));
    check("\\W", "iu", "s", 0, None);
    check("\\W", "iu", "K", 0, None);
    check("\\b", "iu", "ſ", 0, Some(vec![Some((0, 0))]));
    check("\\b", "i", "ſ", 0, None);
    check("\\B", "iu", "ſ", 0, None);
    check("\\bx", "iu", "ſx", 0, None);
    check("\\bx", "i", "ſx", 0, Some(vec![Some((1, 2))]));
    check("\\bx", "u", "ſx", 0, Some(vec![Some((1, 2))]));
    check("x\\b", "iu", "xK", 0, None);
    check("(?<=\\b)K", "iu", " K", 0, Some(vec![Some((1, 2))]));
    check("(é)\\1", "i", "éÉ", 0, Some(vec![Some((0, 2)), Some((0, 1))]));
    check("(é)\\1", "", "éÉ", 0, None);
    check("(σ)\\1\\1", "i", "σΣς", 0, Some(vec![Some((0, 3)), Some((0, 1))]));
    check("(k)\\1", "iu", "kK", 0, Some(vec![Some((0, 2)), Some((0, 1))]));
    check("(k)\\1", "i", "kK", 0, None);
    check("(?<=(Я)\\1)x", "i", "яЯx", 0, Some(vec![Some((2, 3)), Some((1, 2))]));
    check("\\d", "iu", "٣", 0, None);
    check("\\s", "iu", " ", 0, Some(vec![Some((0, 1))]));
    check("[\\d\\s]", "i", "x", 0, None);
}

#[test]
fn forms_of_a_letter_are_forms_of_each_other() {
    for unicode in [false, true] {
        for c in 0..0x2_0000u32 {
            let forms = other_forms(c, unicode);
            assert!(forms.len() <= 3, "{:x}", c);
            for &v in forms.iter() {
                assert_ne!(v, c, "{:x}", c);
                let back = other_forms(v, unicode);
                assert!(back.contains(&c), "{:x} and {:x}", c, v);
                for &w in back.iter() {
                    assert!(w == c || forms.contains(&w), "{:x}, {:x} and {:x}", c, v, w);
                }
            }
        }
    }
}

#[test]
fn ascii_letters_have_their_other_case() {
    for c in 0..0x80u32 {
        let forms = other_forms(c, false);
        let ch = char::from_u32(c).unwrap();
        if ch.is_ascii_lowercase() {
            assert_eq!(forms, vec![c - 32]);
        } else if ch.is_ascii_uppercase() {
            assert_eq!(forms, vec![c + 32]);
        } else {
            assert!(forms.is_empty());
        }
    }
    assert_eq!(other_forms('k' as u32, true), vec!['K' as u32, 0x212a]);
    assert_eq!(other_forms('s' as u32, true), vec!['S' as u32, 0x17f]);
    assert_eq!(other_forms(0x212a, true), vec!['K' as u32, 'k' as u32]);
    assert_eq!(other_forms(0x212a, false), vec![]);
}
