//! Letters that differ in case only.
//!
//! Where case is ignored, two code points are the same character if the
//! tables below pair them.  The tables hold the simple case mappings of
//! Unicode as ECMA-262 applies them: without the unicode flag, code points
//! with the same upper-case form in the Basic Multilingual Plane, a form
//! outside ASCII never being paired with one inside; with the flag, code
//! points with the same simple case folding.

use vstd::prelude::*;
use crate::flags::Flags;

verus! {

/// The letters that are the same but for their case, whatever the flags:
/// each row stands for the code points from its first number to its second,
/// every one of them or every other one as its fourth number is 1 or 2, and
/// says that each is the same letter as the code point that lies the third
/// number further on.
pub const COMMON_FOLDS: [(u32, u32, i32, u32); 412] = [
    (0x0041, 0x005a, 32, 1),
    (0x0061, 0x007a, -32, 1),
    (0x00b5, 0x00b5, 743, 1),
    (0x00b5, 0x00b5, 775, 1),
    (0x00c0, 0x00d6, 32, 1),
    (0x00d8, 0x00de, 32, 1),
    (0x00e0, 0x00f6, -32, 1),
    (0x00f8, 0x00fe, -32, 1),
    (0x00ff, 0x00ff, 121, 1),
    (0x0100, 0x012e, 1, 2),
    (0x0101, 0x012f, -1, 2),
    (0x0132, 0x0136, 1, 2),
    (0x0133, 0x0137, -1, 2),
    (0x0139, 0x0147, 1, 2),
    (0x013a, 0x0148, -1, 2),
    (0x014a, 0x0176, 1, 2),
    (0x014b, 0x0177, -1, 2),
    (0x0178, 0x0178, -121, 1),
    (0x0179, 0x017d, 1, 2),
    (0x017a, 0x017e, -1, 2),
    (0x0180, 0x0180, 195, 1),
    (0x0181, 0x0181, 210, 1),
    (0x0182, 0x0184, 1, 2),
    (0x0183, 0x0185, -1, 2),
    (0x0186, 0x0186, 206, 1),
    (0x0187, 0x0187, 1, 1),
    (0x0188, 0x0188, -1, 1),
    (0x0189, 0x018a, 205, 1),
    (0x018b, 0x018b, 1, 1),
    (0x018c, 0x018c, -1, 1),
    (0x018e, 0x018e, 79, 1),
    (0x018f, 0x018f, 202, 1),
    (0x0190, 0x0190, 203, 1),
    (0x0191, 0x0191, 1, 1),
    (0x0192, 0x0192, -1, 1),
    (0x0193, 0x0193, 205, 1),
    (0x0194, 0x0194, 207, 1),
    (0x0195, 0x0195, 97, 1),
    (0x0196, 0x0196, 211, 1),
    (0x0197, 0x0197, 209, 1),
    (0x0198, 0x0198, 1, 1),
    (0x0199, 0x0199, -1, 1),
    (0x019a, 0x019a, 163, 1),
    (0x019b, 0x019b, 42561, 1),
    (0x019c, 0x019c, 211, 1),
    (0x019d, 0x019d, 213, 1),
    (0x019e, 0x019e, 130, 1),
    (0x019f, 0x019f, 214, 1),
    (0x01a0, 0x01a4, 1, 2),
    (0x01a1, 0x01a5, -1, 2),
    (0x01a6, 0x01a6, 218, 1),
    (0x01a7, 0x01a7, 1, 1),
    (0x01a8, 0x01a8, -1, 1),
    (0x01a9, 0x01a9, 218, 1),
    (0x01ac, 0x01ac, 1, 1),
    (0x01ad, 0x01ad, -1, 1),
    (0x01ae, 0x01ae, 218, 1),
    (0x01af, 0x01af, 1, 1),
    (0x01b0, 0x01b0, -1, 1),
    (0x01b1, 0x01b2, 217, 1),
    (0x01b3, 0x01b5, 1, 2),
    (0x01b4, 0x01b6, -1, 2),
    (0x01b7, 0x01b7, 219, 1),
    (0x01b8, 0x01b8, 1, 1),
    (0x01b9, 0x01b9, -1, 1),
    (0x01bc, 0x01bc, 1, 1),
    (0x01bd, 0x01bd, -1, 1),
    (0x01bf, 0x01bf, 56, 1),
    (0x01c4, 0x01c5, 1, 1),
    (0x01c4, 0x01c4, 2, 1),
    (0x01c5, 0x01c6, -1, 1),
    (0x01c6, 0x01c6, -2, 1),
    (0x01c7, 0x01c8, 1, 1),
    (0x01c7, 0x01c7, 2, 1),
    (0x01c8, 0x01c9, -1, 1),
    (0x01c9, 0x01c9, -2, 1),
    (0x01ca, 0x01cb, 1, 1),
    (0x01ca, 0x01ca, 2, 1),
    (0x01cb, 0x01cc, -1, 1),
    (0x01cc, 0x01cc, -2, 1),
    (0x01cd, 0x01db, 1, 2),
    (0x01ce, 0x01dc, -1, 2),
    (0x01dd, 0x01dd, -79, 1),
    (0x01de, 0x01ee, 1, 2),
    (0x01df, 0x01ef, -1, 2),
    (0x01f1, 0x01f2, 1, 1),
    (0x01f1, 0x01f1, 2, 1),
    (0x01f2, 0x01f3, -1, 1),
    (0x01f3, 0x01f3, -2, 1),
    (0x01f4, 0x01f4, 1, 1),
    (0x01f5, 0x01f5, -1, 1),
    (0x01f6, 0x01f6, -97, 1),
    (0x01f7, 0x01f7, -56, 1),
    (0x01f8, 0x021e, 1, 2),
    (0x01f9, 0x021f, -1, 2),
    (0x0220, 0x0220, -130, 1),
    (0x0222, 0x0232, 1, 2),
    (0x0223, 0x0233, -1, 2),
    (0x023a, 0x023a, 10795, 1),
    (0x023b, 0x023b, 1, 1),
    (0x023c, 0x023c, -1, 1),
    (0x023d, 0x023d, -163, 1),
    (0x023e, 0x023e, 10792, 1),
    (0x023f, 0x0240, 10815, 1),
    (0x0241, 0x0241, 1, 1),
    (0x0242, 0x0242, -1, 1),
    (0x0243, 0x0243, -195, 1),
    (0x0244, 0x0244, 69, 1),
    (0x0245, 0x0245, 71, 1),
    (0x0246, 0x024e, 1, 2),
    (0x0247, 0x024f, -1, 2),
    (0x0250, 0x0250, 10783, 1),
    (0x0251, 0x0251, 10780, 1),
    (0x0252, 0x0252, 10782, 1),
    (0x0253, 0x0253, -210, 1),
    (0x0254, 0x0254, -206, 1),
    (0x0256, 0x0257, -205, 1),
    (0x0259, 0x0259, -202, 1),
    (0x025b, 0x025b, -203, 1),
    (0x025c, 0x025c, 42319, 1),
    (0x0260, 0x0260, -205, 1),
    (0x0261, 0x0261, 42315, 1),
    (0x0263, 0x0263, -207, 1),
    (0x0264, 0x0264, 42343, 1),
    (0x0265, 0x0265, 42280, 1),
    (0x0266, 0x0266, 42308, 1),
    (0x0268, 0x0268, -209, 1),
    (0x0269, 0x0269, -211, 1),
    (0x026a, 0x026a, 42308, 1),
    (0x026b, 0x026b, 10743, 1),
    (0x026c, 0x026c, 42305, 1),
    (0x026f, 0x026f, -211, 1),
    (0x0271, 0x0271, 10749, 1),
    (0x0272, 0x0272, -213, 1),
    (0x0275, 0x0275, -214, 1),
    (0x027d, 0x027d, 10727, 1),
    (0x0280, 0x0280, -218, 1),
    (0x0282, 0x0282, 42307, 1),
    (0x0283, 0x0283, -218, 1),
    (0x0287, 0x0287, 42282, 1),
    (0x0288, 0x0288, -218, 1),
    (0x0289, 0x0289, -69, 1),
    (0x028a, 0x028b, -217, 1),
    (0x028c, 0x028c, -71, 1),
    (0x0292, 0x0292, -219, 1),
    (0x029d, 0x029d, 42261, 1),
    (0x029e, 0x029e, 42258, 1),
    (0x0345, 0x0345, 84, 1),
    (0x0345, 0x0345, 116, 1),
    (0x0345, 0x0345, 7289, 1),
    (0x0370, 0x0372, 1, 2),
    (0x0371, 0x0373, -1, 2),
    (0x0376, 0x0376, 1, 1),
    (0x0377, 0x0377, -1, 1),
    (0x037b, 0x037d, 130, 1),
    (0x037f, 0x037f, 116, 1),
    (0x0386, 0x0386, 38, 1),
    (0x0388, 0x038a, 37, 1),
    (0x038c, 0x038c, 64, 1),
    (0x038e, 0x038f, 63, 1),
    (0x0391, 0x03a1, 32, 1),
    (0x0392, 0x0392, 62, 1),
    (0x0395, 0x0395, 96, 1),
    (0x0398, 0x0398, 57, 1),
    (0x0399, 0x0399, -84, 1),
    (0x0399, 0x0399, 7205, 1),
    (0x039a, 0x039a, 86, 1),
    (0x039c, 0x039c, -743, 1),
    (0x03a0, 0x03a0, 54, 1),
    (0x03a1, 0x03a1, 80, 1),
    (0x03a3, 0x03a3, 31, 1),
    (0x03a3, 0x03ab, 32, 1),
    (0x03a6, 0x03a6, 47, 1),
    (0x03ac, 0x03ac, -38, 1),
    (0x03ad, 0x03af, -37, 1),
    (0x03b1, 0x03c1, -32, 1),
    (0x03b2, 0x03b2, 30, 1),
    (0x03b5, 0x03b5, 64, 1),
    (0x03b8, 0x03b8, 25, 1),
    (0x03b9, 0x03b9, -116, 1),
    (0x03b9, 0x03b9, 7173, 1),
    (0x03ba, 0x03ba, 54, 1),
    (0x03bc, 0x03bc, -775, 1),
    (0x03c0, 0x03c0, 22, 1),
    (0x03c1, 0x03c1, 48, 1),
    (0x03c2, 0x03c2, -31, 1),
    (0x03c2, 0x03c2, 1, 1),
    (0x03c3, 0x03cb, -32, 1),
    (0x03c3, 0x03c3, -1, 1),
    (0x03c6, 0x03c6, 15, 1),
    (0x03cc, 0x03cc, -64, 1),
    (0x03cd, 0x03ce, -63, 1),
    (0x03cf, 0x03cf, 8, 1),
    (0x03d0, 0x03d0, -62, 1),
    (0x03d0, 0x03d0, -30, 1),
    (0x03d1, 0x03d1, -57, 1),
    (0x03d1, 0x03d1, -25, 1),
    (0x03d5, 0x03d5, -47, 1),
    (0x03d5, 0x03d5, -15, 1),
    (0x03d6, 0x03d6, -54, 1),
    (0x03d6, 0x03d6, -22, 1),
    (0x03d7, 0x03d7, -8, 1),
    (0x03d8, 0x03ee, 1, 2),
    (0x03d9, 0x03ef, -1, 2),
    (0x03f0, 0x03f0, -86, 1),
    (0x03f0, 0x03f0, -54, 1),
    (0x03f1, 0x03f1, -80, 1),
    (0x03f1, 0x03f1, -48, 1),
    (0x03f2, 0x03f2, 7, 1),
    (0x03f3, 0x03f3, -116, 1),
    (0x03f5, 0x03f5, -96, 1),
    (0x03f5, 0x03f5, -64, 1),
    (0x03f7, 0x03f7, 1, 1),
    (0x03f8, 0x03f8, -1, 1),
    (0x03f9, 0x03f9, -7, 1),
    (0x03fa, 0x03fa, 1, 1),
    (0x03fb, 0x03fb, -1, 1),
    (0x03fd, 0x03ff, -130, 1),
    (0x0400, 0x040f, 80, 1),
    (0x0410, 0x042f, 32, 1),
    (0x0412, 0x0412, 6254, 1),
    (0x0414, 0x0414, 6253, 1),
    (0x041e, 0x041e, 6244, 1),
    (0x0421, 0x0422, 6242, 1),
    (0x0422, 0x0422, 6243, 1),
    (0x042a, 0x042a, 6236, 1),
    (0x0430, 0x044f, -32, 1),
    (0x0432, 0x0432, 6222, 1),
    (0x0434, 0x0434, 6221, 1),
    (0x043e, 0x043e, 6212, 1),
    (0x0441, 0x0442, 6210, 1),
    (0x0442, 0x0442, 6211, 1),
    (0x044a, 0x044a, 6204, 1),
    (0x0450, 0x045f, -80, 1),
    (0x0460, 0x0480, 1, 2),
    (0x0461, 0x0481, -1, 2),
    (0x0462, 0x0462, 6181, 1),
    (0x0463, 0x0463, 6180, 1),
    (0x048a, 0x04be, 1, 2),
    (0x048b, 0x04bf, -1, 2),
    (0x04c0, 0x04c0, 15, 1),
    (0x04c1, 0x04cd, 1, 2),
    (0x04c2, 0x04ce, -1, 2),
    (0x04cf, 0x04cf, -15, 1),
    (0x04d0, 0x052e, 1, 2),
    (0x04d1, 0x052f, -1, 2),
    (0x0531, 0x0556, 48, 1),
    (0x0561, 0x0586, -48, 1),
    (0x10a0, 0x10c5, 7264, 1),
    (0x10c7, 0x10c7, 7264, 1),
    (0x10cd, 0x10cd, 7264, 1),
    (0x10d0, 0x10fa, 3008, 1),
    (0x10fd, 0x10ff, 3008, 1),
    (0x13a0, 0x13ef, 38864, 1),
    (0x13f0, 0x13f5, 8, 1),
    (0x13f8, 0x13fd, -8, 1),
    (0x1c80, 0x1c80, -6254, 1),
    (0x1c80, 0x1c80, -6222, 1),
    (0x1c81, 0x1c81, -6253, 1),
    (0x1c81, 0x1c81, -6221, 1),
    (0x1c82, 0x1c82, -6244, 1),
    (0x1c82, 0x1c82, -6212, 1),
    (0x1c83, 0x1c84, -6242, 1),
    (0x1c83, 0x1c84, -6210, 1),
    (0x1c84, 0x1c84, 1, 1),
    (0x1c85, 0x1c85, -6243, 1),
    (0x1c85, 0x1c85, -6211, 1),
    (0x1c85, 0x1c85, -1, 1),
    (0x1c86, 0x1c86, -6236, 1),
    (0x1c86, 0x1c86, -6204, 1),
    (0x1c87, 0x1c87, -6181, 1),
    (0x1c87, 0x1c87, -6180, 1),
    (0x1c88, 0x1c88, 35266, 1),
    (0x1c88, 0x1c88, 35267, 1),
    (0x1c89, 0x1c89, 1, 1),
    (0x1c8a, 0x1c8a, -1, 1),
    (0x1c90, 0x1cba, -3008, 1),
    (0x1cbd, 0x1cbf, -3008, 1),
    (0x1d79, 0x1d79, 35332, 1),
    (0x1d7d, 0x1d7d, 3814, 1),
    (0x1d8e, 0x1d8e, 35384, 1),
    (0x1e00, 0x1e94, 1, 2),
    (0x1e01, 0x1e95, -1, 2),
    (0x1e60, 0x1e60, 59, 1),
    (0x1e61, 0x1e61, 58, 1),
    (0x1e9b, 0x1e9b, -59, 1),
    (0x1e9b, 0x1e9b, -58, 1),
    (0x1ea0, 0x1efe, 1, 2),
    (0x1ea1, 0x1eff, -1, 2),
    (0x1f00, 0x1f07, 8, 1),
    (0x1f08, 0x1f0f, -8, 1),
    (0x1f10, 0x1f15, 8, 1),
    (0x1f18, 0x1f1d, -8, 1),
    (0x1f20, 0x1f27, 8, 1),
    (0x1f28, 0x1f2f, -8, 1),
    (0x1f30, 0x1f37, 8, 1),
    (0x1f38, 0x1f3f, -8, 1),
    (0x1f40, 0x1f45, 8, 1),
    (0x1f48, 0x1f4d, -8, 1),
    (0x1f51, 0x1f57, 8, 2),
    (0x1f59, 0x1f5f, -8, 2),
    (0x1f60, 0x1f67, 8, 1),
    (0x1f68, 0x1f6f, -8, 1),
    (0x1f70, 0x1f71, 74, 1),
    (0x1f72, 0x1f75, 86, 1),
    (0x1f76, 0x1f77, 100, 1),
    (0x1f78, 0x1f79, 128, 1),
    (0x1f7a, 0x1f7b, 112, 1),
    (0x1f7c, 0x1f7d, 126, 1),
    (0x1fb0, 0x1fb1, 8, 1),
    (0x1fb8, 0x1fb9, -8, 1),
    (0x1fba, 0x1fbb, -74, 1),
    (0x1fbe, 0x1fbe, -7289, 1),
    (0x1fbe, 0x1fbe, -7205, 1),
    (0x1fbe, 0x1fbe, -7173, 1),
    (0x1fc8, 0x1fcb, -86, 1),
    (0x1fd0, 0x1fd1, 8, 1),
    (0x1fd8, 0x1fd9, -8, 1),
    (0x1fda, 0x1fdb, -100, 1),
    (0x1fe0, 0x1fe1, 8, 1),
    (0x1fe5, 0x1fe5, 7, 1),
    (0x1fe8, 0x1fe9, -8, 1),
    (0x1fea, 0x1feb, -112, 1),
    (0x1fec, 0x1fec, -7, 1),
    (0x1ff8, 0x1ff9, -128, 1),
    (0x1ffa, 0x1ffb, -126, 1),
    (0x2132, 0x2132, 28, 1),
    (0x214e, 0x214e, -28, 1),
    (0x2160, 0x216f, 16, 1),
    (0x2170, 0x217f, -16, 1),
    (0x2183, 0x2183, 1, 1),
    (0x2184, 0x2184, -1, 1),
    (0x24b6, 0x24cf, 26, 1),
    (0x24d0, 0x24e9, -26, 1),
    (0x2c00, 0x2c2f, 48, 1),
    (0x2c30, 0x2c5f, -48, 1),
    (0x2c60, 0x2c60, 1, 1),
    (0x2c61, 0x2c61, -1, 1),
    (0x2c62, 0x2c62, -10743, 1),
    (0x2c63, 0x2c63, -3814, 1),
    (0x2c64, 0x2c64, -10727, 1),
    (0x2c65, 0x2c65, -10795, 1),
    (0x2c66, 0x2c66, -10792, 1),
    (0x2c67, 0x2c6b, 1, 2),
    (0x2c68, 0x2c6c, -1, 2),
    (0x2c6d, 0x2c6d, -10780, 1),
    (0x2c6e, 0x2c6e, -10749, 1),
    (0x2c6f, 0x2c6f, -10783, 1),
    (0x2c70, 0x2c70, -10782, 1),
    (0x2c72, 0x2c72, 1, 1),
    (0x2c73, 0x2c73, -1, 1),
    (0x2c75, 0x2c75, 1, 1),
    (0x2c76, 0x2c76, -1, 1),
    (0x2c7e, 0x2c7f, -10815, 1),
    (0x2c80, 0x2ce2, 1, 2),
    (0x2c81, 0x2ce3, -1, 2),
    (0x2ceb, 0x2ced, 1, 2),
    (0x2cec, 0x2cee, -1, 2),
    (0x2cf2, 0x2cf2, 1, 1),
    (0x2cf3, 0x2cf3, -1, 1),
    (0x2d00, 0x2d25, -7264, 1),
    (0x2d27, 0x2d27, -7264, 1),
    (0x2d2d, 0x2d2d, -7264, 1),
    (0xa640, 0xa66c, 1, 2),
    (0xa641, 0xa66d, -1, 2),
    (0xa64a, 0xa64a, -35266, 1),
    (0xa64b, 0xa64b, -35267, 1),
    (0xa680, 0xa69a, 1, 2),
    (0xa681, 0xa69b, -1, 2),
    (0xa722, 0xa72e, 1, 2),
    (0xa723, 0xa72f, -1, 2),
    (0xa732, 0xa76e, 1, 2),
    (0xa733, 0xa76f, -1, 2),
    (0xa779, 0xa77b, 1, 2),
    (0xa77a, 0xa77c, -1, 2),
    (0xa77d, 0xa77d, -35332, 1),
    (0xa77e, 0xa786, 1, 2),
    (0xa77f, 0xa787, -1, 2),
    (0xa78b, 0xa78b, 1, 1),
    (0xa78c, 0xa78c, -1, 1),
    (0xa78d, 0xa78d, -42280, 1),
    (0xa790, 0xa792, 1, 2),
    (0xa791, 0xa793, -1, 2),
    (0xa794, 0xa794, 48, 1),
    (0xa796, 0xa7a8, 1, 2),
    (0xa797, 0xa7a9, -1, 2),
    (0xa7aa, 0xa7aa, -42308, 1),
    (0xa7ab, 0xa7ab, -42319, 1),
    (0xa7ac, 0xa7ac, -42315, 1),
    (0xa7ad, 0xa7ad, -42305, 1),
    (0xa7ae, 0xa7ae, -42308, 1),
    (0xa7b0, 0xa7b0, -42258, 1),
    (0xa7b1, 0xa7b1, -42282, 1),
    (0xa7b2, 0xa7b2, -42261, 1),
    (0xa7b3, 0xa7b3, 928, 1),
    (0xa7b4, 0xa7c2, 1, 2),
    (0xa7b5, 0xa7c3, -1, 2),
    (0xa7c4, 0xa7c4, -48, 1),
    (0xa7c5, 0xa7c5, -42307, 1),
    (0xa7c6, 0xa7c6, -35384, 1),
    (0xa7c7, 0xa7c9, 1, 2),
    (0xa7c8, 0xa7ca, -1, 2),
    (0xa7cb, 0xa7cb, -42343, 1),
    (0xa7cc, 0xa7da, 1, 2),
    (0xa7cd, 0xa7db, -1, 2),
    (0xa7dc, 0xa7dc, -42561, 1),
    (0xa7f5, 0xa7f5, 1, 1),
    (0xa7f6, 0xa7f6, -1, 1),
    (0xab53, 0xab53, -928, 1),
    (0xab70, 0xabbf, -38864, 1),
    (0xff21, 0xff3a, 32, 1),
    (0xff41, 0xff5a, -32, 1),
];

/// The letters that are the same but for their case with the unicode flag
/// only, in rows of the same form.
pub const UNICODE_FOLDS: [(u32, u32, i32, u32); 60] = [
    (0x004b, 0x004b, 8415, 1),
    (0x0053, 0x0053, 300, 1),
    (0x006b, 0x006b, 8383, 1),
    (0x0073, 0x0073, 268, 1),
    (0x00c5, 0x00c5, 8294, 1),
    (0x00df, 0x00df, 7615, 1),
    (0x00e5, 0x00e5, 8262, 1),
    (0x017f, 0x017f, -300, 1),
    (0x017f, 0x017f, -268, 1),
    (0x0398, 0x0398, 92, 1),
    (0x03a9, 0x03a9, 7549, 1),
    (0x03b8, 0x03b8, 60, 1),
    (0x03c9, 0x03c9, 7517, 1),
    (0x03d1, 0x03d1, 35, 1),
    (0x03f4, 0x03f4, -92, 1),
    (0x03f4, 0x03f4, -60, 1),
    (0x03f4, 0x03f4, -35, 1),
    (0x1e9e, 0x1e9e, -7615, 1),
    (0x1f80, 0x1f87, 8, 1),
    (0x1f88, 0x1f8f, -8, 1),
    (0x1f90, 0x1f97, 8, 1),
    (0x1f98, 0x1f9f, -8, 1),
    (0x1fa0, 0x1fa7, 8, 1),
    (0x1fa8, 0x1faf, -8, 1),
    (0x1fb3, 0x1fb3, 9, 1),
    (0x1fbc, 0x1fbc, -9, 1),
    (0x1fc3, 0x1fc3, 9, 1),
    (0x1fcc, 0x1fcc, -9, 1),
    (0x1ff3, 0x1ff3, 9, 1),
    (0x1ffc, 0x1ffc, -9, 1),
    (0x2126, 0x2126, -7549, 1),
    (0x2126, 0x2126, -7517, 1),
    (0x212a, 0x212a, -8415, 1),
    (0x212a, 0x212a, -8383, 1),
    (0x212b, 0x212b, -8294, 1),
    (0x212b, 0x212b, -8262, 1),
    (0x10400, 0x10427, 40, 1),
    (0x10428, 0x1044f, -40, 1),
    (0x104b0, 0x104d3, 40, 1),
    (0x104d8, 0x104fb, -40, 1),
    (0x10570, 0x1057a, 39, 1),
    (0x1057c, 0x1058a, 39, 1),
    (0x1058c, 0x10592, 39, 1),
    (0x10594, 0x10595, 39, 1),
    (0x10597, 0x105a1, -39, 1),
    (0x105a3, 0x105b1, -39, 1),
    (0x105b3, 0x105b9, -39, 1),
    (0x105bb, 0x105bc, -39, 1),
    (0x10c80, 0x10cb2, 64, 1),
    (0x10cc0, 0x10cf2, -64, 1),
    (0x10d50, 0x10d65, 32, 1),
    (0x10d70, 0x10d85, -32, 1),
    (0x118a0, 0x118bf, 32, 1),
    (0x118c0, 0x118df, -32, 1),
    (0x16e40, 0x16e5f, 32, 1),
    (0x16e60, 0x16e7f, -32, 1),
    (0x16ea0, 0x16eb8, 27, 1),
    (0x16ebb, 0x16ed3, -27, 1),
    (0x1e900, 0x1e921, 34, 1),
    (0x1e922, 0x1e943, -34, 1),
];

/// Whether `row` says that `a` is the same letter as `b`.
pub open spec fn row_maps(row: (u32, u32, i32, u32), a: u32, b: u32) -> bool {
    &&& row.0 <= a <= row.1
    &&& (row.3 == 1 || (a - row.0) % 2 == 0)
    &&& b == a + row.2
}

/// Whether `a` and `b` are two forms of one letter: whether a row of the
/// tables pairs them.
pub open spec fn same_letter(a: u32, b: u32, unicode: bool) -> bool {
    ||| exists|i: int| 0 <= i < COMMON_FOLDS@.len() && row_maps(#[trigger] COMMON_FOLDS[i], a, b)
    ||| unicode && exists|i: int|
        0 <= i < UNICODE_FOLDS@.len() && row_maps(#[trigger] UNICODE_FOLDS[i], a, b)
}

/// Whether two code points are the same character under the flags `f`:
/// equal, or, where case is ignored, two forms of one letter.
pub open spec fn same_char(a: u32, b: u32, f: Flags) -> bool {
    a == b || (f.ignore_case && same_letter(a, b, f.unicode))
}

/// Whether `c` is the code point of a word character: an ASCII letter, an
/// ASCII digit or `_`.
pub open spec fn spec_is_word_code(c: u32) -> bool {
    (0x61 <= c && c <= 0x7a) || (0x41 <= c && c <= 0x5a) || (0x30 <= c && c <= 0x39) || c == 0x5f
}

/// Whether `c` is the code point of a word character.
#[verifier::when_used_as_spec(spec_is_word_code)]
pub fn is_word_code(c: u32) -> (r: bool)
    ensures
        r == spec_is_word_code(c),
{
    (0x61 <= c && c <= 0x7a) || (0x41 <= c && c <= 0x5a) || (0x30 <= c && c <= 0x39) || c == 0x5f
}

/// Whether `c` counts as a word character under the flags `f`: it is one,
/// or, where case is ignored, another form of one.
pub open spec fn word_char(c: u32, f: Flags) -> bool {
    is_word_code(c) || (f.ignore_case && exists|b: u32|
        same_letter(c, b, f.unicode) && is_word_code(b))
}

/// Whether position `i` of `t` holds a word character; no position outside
/// the text does.
pub open spec fn word_at(t: Seq<char>, i: int, f: Flags) -> bool {
    0 <= i < t.len() && word_char(t[i] as u32, f)
}

/// The code point that `row` pairs `c` with, if it pairs it with one.
fn image(row: (u32, u32, i32, u32), c: u32) -> (r: Option<u32>)
    ensures
        match r {
            Some(b) => row_maps(row, c, b),
            None => forall|b: u32| !row_maps(row, c, b),
        },
{
    if row.0 <= c && c <= row.1 && (row.3 == 1 || (c - row.0) % 2 == 0) {
        let b: i64 = c as i64 + row.2 as i64;
        if 0 <= b && b <= u32::MAX as i64 {
            Some(b as u32)
        } else {
            None
        }
    } else {
        None
    }
}

/// What holds of `found` when the first `i` rows of the common table and
/// the first `j` of the other have been read for `c`.
pub closed spec fn read_so_far(found: Seq<u32>, c: u32, i: int, j: int) -> bool {
    forall|b: u32| #[trigger]
        found.contains(b) <==> ((exists|k: int|
            0 <= k < i && row_maps(#[trigger] COMMON_FOLDS[k], c, b)) || (exists|k: int|
            0 <= k < j && row_maps(#[trigger] UNICODE_FOLDS[k], c, b)))
}

/// The other forms of the letter `c`: the code points that `c` is the same
/// letter as.
pub fn other_forms(c: u32, unicode: bool) -> (r: Vec<u32>)
    ensures
        forall|b: u32| #[trigger] r@.contains(b) <==> same_letter(c, b, unicode),
{
    let mut found: Vec<u32> = Vec::new();
    let mut i: usize = 0;
    assert(read_so_far(found@, c, 0, 0));
    while i < COMMON_FOLDS.len()
        invariant
            i <= COMMON_FOLDS@.len(),
            read_so_far(found@, c, i as int, 0),
        decreases COMMON_FOLDS@.len() - i,
    {
        let ghost before = found@;
        match image(COMMON_FOLDS[i], c) {
            Some(b) => {
                found.push(b);
                proof {
                    lemma_push_contains(before, b);
                }
            },
            None => {},
        }
        assert(read_so_far(found@, c, i + 1, 0)) by {
            assert forall|x: u32| #[trigger]
                found@.contains(x) <==> ((exists|k: int|
                    0 <= k < i + 1 && row_maps(#[trigger] COMMON_FOLDS[k], c, x)) || (exists|
                    k: int,
                | 0 <= k < 0 && row_maps(#[trigger] UNICODE_FOLDS[k], c, x))) by {
                if row_maps(COMMON_FOLDS[i as int], c, x) {
                    assert(found@.contains(x));
                }
            }
        }
        i = i + 1;
    }
    if unicode {
        let mut j: usize = 0;
        while j < UNICODE_FOLDS.len()
            invariant
                i == COMMON_FOLDS@.len(),
                j <= UNICODE_FOLDS@.len(),
                read_so_far(found@, c, i as int, j as int),
            decreases UNICODE_FOLDS@.len() - j,
        {
            let ghost before = found@;
            match image(UNICODE_FOLDS[j], c) {
                Some(b) => {
                    found.push(b);
                    proof {
                        lemma_push_contains(before, b);
                    }
                },
                None => {},
            }
            assert(read_so_far(found@, c, i as int, j + 1)) by {
                assert forall|x: u32| #[trigger]
                    found@.contains(x) <==> ((exists|k: int|
                        0 <= k < i && row_maps(#[trigger] COMMON_FOLDS[k], c, x)) || (exists|
                        k: int,
                    | 0 <= k < j + 1 && row_maps(#[trigger] UNICODE_FOLDS[k], c, x))) by {
                    if row_maps(UNICODE_FOLDS[j as int], c, x) {
                        assert(found@.contains(x));
                    }
                }
            }
            j = j + 1;
        }
    }
    found
}

/// What a sequence holds after one more item was added.
pub proof fn lemma_push_contains(s: Seq<u32>, b: u32)
    ensures
        forall|x: u32| #[trigger] s.push(b).contains(x) <==> (s.contains(x) || x == b),
{
    assert forall|x: u32| #[trigger] s.push(b).contains(x) <==> (s.contains(x) || x == b) by {
        if s.contains(x) {
            let j = choose|j: int| 0 <= j < s.len() && s[j] == x;
            assert(s.push(b)[j] == x);
        }
        if x == b {
            assert(s.push(b)[s.len() as int] == x);
        }
    }
}

/// Whether two code points are the same character under the flags `f`.
pub fn chars_same(a: u32, b: u32, f: Flags) -> (r: bool)
    ensures
        r == same_char(a, b, f),
{
    if a == b {
        return true;
    }
    if !f.ignore_case {
        return false;
    }
    let forms = other_forms(a, f.unicode);
    let mut i: usize = 0;
    while i < forms.len()
        invariant
            i <= forms.len(),
            a != b,
            f.ignore_case,
            forall|x: u32| #[trigger] forms@.contains(x) <==> same_letter(a, x, f.unicode),
            forall|k: int| 0 <= k < i ==> forms[k] != b,
        decreases forms.len() - i,
    {
        if forms[i] == b {
            assert(forms@.contains(b));
            return true;
        }
        i = i + 1;
    }
    assert(!forms@.contains(b));
    false
}

/// Whether `c` counts as a word character under the flags `f`.
pub fn is_word_under(c: u32, f: Flags) -> (r: bool)
    ensures
        r == word_char(c, f),
{
    if is_word_code(c) {
        return true;
    }
    if !f.ignore_case {
        return false;
    }
    let forms = other_forms(c, f.unicode);
    let mut i: usize = 0;
    while i < forms.len()
        invariant
            i <= forms.len(),
            !is_word_code(c),
            f.ignore_case,
            forall|x: u32| #[trigger] forms@.contains(x) <==> same_letter(c, x, f.unicode),
            forall|k: int| 0 <= k < i ==> !is_word_code(forms[k]),
        decreases forms.len() - i,
    {
        if is_word_code(forms[i]) {
            assert(forms@.contains(forms[i as int]));
            return true;
        }
        i = i + 1;
    }
    assert forall|x: u32| same_letter(c, x, f.unicode) implies !is_word_code(x) by {
        assert(forms@.contains(x));
    }
    false
}

} // verus!
