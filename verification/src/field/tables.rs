//! GF(2^8) logarithm, exponent and inverse tables.
//!
//! Primitive polynomial: x^8 + x^4 + x^3 + x + 1 (0x11B); generator 0x03.
//! The tables are written out as values; the lemmas below prove what they
//! mean in the field (powers of the generator, discrete logarithms and
//! inverses), and `gen_exp`, `gen_log` and `gen_inv` rebuild them from the
//! field arithmetic alone.

use crate::field::algebra::{
    gf_mul, gf_pow, lemma_mul_acc, lemma_mul_acc_step, lemma_mul_associative,
    lemma_mul_commutative, lemma_mul_identities, lemma_mul_unfold, lemma_pow_add, lemma_pow_mul,
    lemma_pow_one, lemma_xor_assoc, lemma_xor_basics, mul_acc, mul_terms, term, xtime,
};
use vstd::prelude::*;

verus! {

/// Entry `i` of the doubled exponent table: `3^(i mod 255)` (the value fixed for indices 512 and above is unused).
#[verifier::opaque]
pub open spec fn exp_value(i: u16) -> u8 {
    match i {
        0 => 1,
        1 => 3,
        2 => 5,
        3 => 15,
        4 => 17,
        5 => 51,
        6 => 85,
        7 => 255,
        8 => 26,
        9 => 46,
        10 => 114,
        11 => 150,
        12 => 161,
        13 => 248,
        14 => 19,
        15 => 53,
        16 => 95,
        17 => 225,
        18 => 56,
        19 => 72,
        20 => 216,
        21 => 115,
        22 => 149,
        23 => 164,
        24 => 247,
        25 => 2,
        26 => 6,
        27 => 10,
        28 => 30,
        29 => 34,
        30 => 102,
        31 => 170,
        32 => 229,
        33 => 52,
        34 => 92,
        35 => 228,
        36 => 55,
        37 => 89,
        38 => 235,
        39 => 38,
        40 => 106,
        41 => 190,
        42 => 217,
        43 => 112,
        44 => 144,
        45 => 171,
        46 => 230,
        47 => 49,
        48 => 83,
        49 => 245,
        50 => 4,
        51 => 12,
        52 => 20,
        53 => 60,
        54 => 68,
        55 => 204,
        56 => 79,
        57 => 209,
        58 => 104,
        59 => 184,
        60 => 211,
        61 => 110,
        62 => 178,
        63 => 205,
        64 => 76,
        65 => 212,
        66 => 103,
        67 => 169,
        68 => 224,
        69 => 59,
        70 => 77,
        71 => 215,
        72 => 98,
        73 => 166,
        74 => 241,
        75 => 8,
        76 => 24,
        77 => 40,
        78 => 120,
        79 => 136,
        80 => 131,
        81 => 158,
        82 => 185,
        83 => 208,
        84 => 107,
        85 => 189,
        86 => 220,
        87 => 127,
        88 => 129,
        89 => 152,
        90 => 179,
        91 => 206,
        92 => 73,
        93 => 219,
        94 => 118,
        95 => 154,
        96 => 181,
        97 => 196,
        98 => 87,
        99 => 249,
        100 => 16,
        101 => 48,
        102 => 80,
        103 => 240,
        104 => 11,
        105 => 29,
        106 => 39,
        107 => 105,
        108 => 187,
        109 => 214,
        110 => 97,
        111 => 163,
        112 => 254,
        113 => 25,
        114 => 43,
        115 => 125,
        116 => 135,
        117 => 146,
        118 => 173,
        119 => 236,
        120 => 47,
        121 => 113,
        122 => 147,
        123 => 174,
        124 => 233,
        125 => 32,
        126 => 96,
        127 => 160,
        128 => 251,
        129 => 22,
        130 => 58,
        131 => 78,
        132 => 210,
        133 => 109,
        134 => 183,
        135 => 194,
        136 => 93,
        137 => 231,
        138 => 50,
        139 => 86,
        140 => 250,
        141 => 21,
        142 => 63,
        143 => 65,
        144 => 195,
        145 => 94,
        146 => 226,
        147 => 61,
        148 => 71,
        149 => 201,
        150 => 64,
        151 => 192,
        152 => 91,
        153 => 237,
        154 => 44,
        155 => 116,
        156 => 156,
        157 => 191,
        158 => 218,
        159 => 117,
        160 => 159,
        161 => 186,
        162 => 213,
        163 => 100,
        164 => 172,
        165 => 239,
        166 => 42,
        167 => 126,
        168 => 130,
        169 => 157,
        170 => 188,
        171 => 223,
        172 => 122,
        173 => 142,
        174 => 137,
        175 => 128,
        176 => 155,
        177 => 182,
        178 => 193,
        179 => 88,
        180 => 232,
        181 => 35,
        182 => 101,
        183 => 175,
        184 => 234,
        185 => 37,
        186 => 111,
        187 => 177,
        188 => 200,
        189 => 67,
        190 => 197,
        191 => 84,
        192 => 252,
        193 => 31,
        194 => 33,
        195 => 99,
        196 => 165,
        197 => 244,
        198 => 7,
        199 => 9,
        200 => 27,
        201 => 45,
        202 => 119,
        203 => 153,
        204 => 176,
        205 => 203,
        206 => 70,
        207 => 202,
        208 => 69,
        209 => 207,
        210 => 74,
        211 => 222,
        212 => 121,
        213 => 139,
        214 => 134,
        215 => 145,
        216 => 168,
        217 => 227,
        218 => 62,
        219 => 66,
        220 => 198,
        221 => 81,
        222 => 243,
        223 => 14,
        224 => 18,
        225 => 54,
        226 => 90,
        227 => 238,
        228 => 41,
        229 => 123,
        230 => 141,
        231 => 140,
        232 => 143,
        233 => 138,
        234 => 133,
        235 => 148,
        236 => 167,
        237 => 242,
        238 => 13,
        239 => 23,
        240 => 57,
        241 => 75,
        242 => 221,
        243 => 124,
        244 => 132,
        245 => 151,
        246 => 162,
        247 => 253,
        248 => 28,
        249 => 36,
        250 => 108,
        251 => 180,
        252 => 199,
        253 => 82,
        254 => 246,
        255 => 1,
        256 => 3,
        257 => 5,
        258 => 15,
        259 => 17,
        260 => 51,
        261 => 85,
        262 => 255,
        263 => 26,
        264 => 46,
        265 => 114,
        266 => 150,
        267 => 161,
        268 => 248,
        269 => 19,
        270 => 53,
        271 => 95,
        272 => 225,
        273 => 56,
        274 => 72,
        275 => 216,
        276 => 115,
        277 => 149,
        278 => 164,
        279 => 247,
        280 => 2,
        281 => 6,
        282 => 10,
        283 => 30,
        284 => 34,
        285 => 102,
        286 => 170,
        287 => 229,
        288 => 52,
        289 => 92,
        290 => 228,
        291 => 55,
        292 => 89,
        293 => 235,
        294 => 38,
        295 => 106,
        296 => 190,
        297 => 217,
        298 => 112,
        299 => 144,
        300 => 171,
        301 => 230,
        302 => 49,
        303 => 83,
        304 => 245,
        305 => 4,
        306 => 12,
        307 => 20,
        308 => 60,
        309 => 68,
        310 => 204,
        311 => 79,
        312 => 209,
        313 => 104,
        314 => 184,
        315 => 211,
        316 => 110,
        317 => 178,
        318 => 205,
        319 => 76,
        320 => 212,
        321 => 103,
        322 => 169,
        323 => 224,
        324 => 59,
        325 => 77,
        326 => 215,
        327 => 98,
        328 => 166,
        329 => 241,
        330 => 8,
        331 => 24,
        332 => 40,
        333 => 120,
        334 => 136,
        335 => 131,
        336 => 158,
        337 => 185,
        338 => 208,
        339 => 107,
        340 => 189,
        341 => 220,
        342 => 127,
        343 => 129,
        344 => 152,
        345 => 179,
        346 => 206,
        347 => 73,
        348 => 219,
        349 => 118,
        350 => 154,
        351 => 181,
        352 => 196,
        353 => 87,
        354 => 249,
        355 => 16,
        356 => 48,
        357 => 80,
        358 => 240,
        359 => 11,
        360 => 29,
        361 => 39,
        362 => 105,
        363 => 187,
        364 => 214,
        365 => 97,
        366 => 163,
        367 => 254,
        368 => 25,
        369 => 43,
        370 => 125,
        371 => 135,
        372 => 146,
        373 => 173,
        374 => 236,
        375 => 47,
        376 => 113,
        377 => 147,
        378 => 174,
        379 => 233,
        380 => 32,
        381 => 96,
        382 => 160,
        383 => 251,
        384 => 22,
        385 => 58,
        386 => 78,
        387 => 210,
        388 => 109,
        389 => 183,
        390 => 194,
        391 => 93,
        392 => 231,
        393 => 50,
        394 => 86,
        395 => 250,
        396 => 21,
        397 => 63,
        398 => 65,
        399 => 195,
        400 => 94,
        401 => 226,
        402 => 61,
        403 => 71,
        404 => 201,
        405 => 64,
        406 => 192,
        407 => 91,
        408 => 237,
        409 => 44,
        410 => 116,
        411 => 156,
        412 => 191,
        413 => 218,
        414 => 117,
        415 => 159,
        416 => 186,
        417 => 213,
        418 => 100,
        419 => 172,
        420 => 239,
        421 => 42,
        422 => 126,
        423 => 130,
        424 => 157,
        425 => 188,
        426 => 223,
        427 => 122,
        428 => 142,
        429 => 137,
        430 => 128,
        431 => 155,
        432 => 182,
        433 => 193,
        434 => 88,
        435 => 232,
        436 => 35,
        437 => 101,
        438 => 175,
        439 => 234,
        440 => 37,
        441 => 111,
        442 => 177,
        443 => 200,
        444 => 67,
        445 => 197,
        446 => 84,
        447 => 252,
        448 => 31,
        449 => 33,
        450 => 99,
        451 => 165,
        452 => 244,
        453 => 7,
        454 => 9,
        455 => 27,
        456 => 45,
        457 => 119,
        458 => 153,
        459 => 176,
        460 => 203,
        461 => 70,
        462 => 202,
        463 => 69,
        464 => 207,
        465 => 74,
        466 => 222,
        467 => 121,
        468 => 139,
        469 => 134,
        470 => 145,
        471 => 168,
        472 => 227,
        473 => 62,
        474 => 66,
        475 => 198,
        476 => 81,
        477 => 243,
        478 => 14,
        479 => 18,
        480 => 54,
        481 => 90,
        482 => 238,
        483 => 41,
        484 => 123,
        485 => 141,
        486 => 140,
        487 => 143,
        488 => 138,
        489 => 133,
        490 => 148,
        491 => 167,
        492 => 242,
        493 => 13,
        494 => 23,
        495 => 57,
        496 => 75,
        497 => 221,
        498 => 124,
        499 => 132,
        500 => 151,
        501 => 162,
        502 => 253,
        503 => 28,
        504 => 36,
        505 => 108,
        506 => 180,
        507 => 199,
        508 => 82,
        509 => 246,
        510 => 1,
        511 => 3,
        _ => 0,
    }
}

/// The discrete logarithm of `x` to base 3 (`0` for `x == 0`, which has none).
#[verifier::opaque]
pub open spec fn log_value(i: u8) -> u8 {
    match i {
        0 => 0,
        1 => 0,
        2 => 25,
        3 => 1,
        4 => 50,
        5 => 2,
        6 => 26,
        7 => 198,
        8 => 75,
        9 => 199,
        10 => 27,
        11 => 104,
        12 => 51,
        13 => 238,
        14 => 223,
        15 => 3,
        16 => 100,
        17 => 4,
        18 => 224,
        19 => 14,
        20 => 52,
        21 => 141,
        22 => 129,
        23 => 239,
        24 => 76,
        25 => 113,
        26 => 8,
        27 => 200,
        28 => 248,
        29 => 105,
        30 => 28,
        31 => 193,
        32 => 125,
        33 => 194,
        34 => 29,
        35 => 181,
        36 => 249,
        37 => 185,
        38 => 39,
        39 => 106,
        40 => 77,
        41 => 228,
        42 => 166,
        43 => 114,
        44 => 154,
        45 => 201,
        46 => 9,
        47 => 120,
        48 => 101,
        49 => 47,
        50 => 138,
        51 => 5,
        52 => 33,
        53 => 15,
        54 => 225,
        55 => 36,
        56 => 18,
        57 => 240,
        58 => 130,
        59 => 69,
        60 => 53,
        61 => 147,
        62 => 218,
        63 => 142,
        64 => 150,
        65 => 143,
        66 => 219,
        67 => 189,
        68 => 54,
        69 => 208,
        70 => 206,
        71 => 148,
        72 => 19,
        73 => 92,
        74 => 210,
        75 => 241,
        76 => 64,
        77 => 70,
        78 => 131,
        79 => 56,
        80 => 102,
        81 => 221,
        82 => 253,
        83 => 48,
        84 => 191,
        85 => 6,
        86 => 139,
        87 => 98,
        88 => 179,
        89 => 37,
        90 => 226,
        91 => 152,
        92 => 34,
        93 => 136,
        94 => 145,
        95 => 16,
        96 => 126,
        97 => 110,
        98 => 72,
        99 => 195,
        100 => 163,
        101 => 182,
        102 => 30,
        103 => 66,
        104 => 58,
        105 => 107,
        106 => 40,
        107 => 84,
        108 => 250,
        109 => 133,
        110 => 61,
        111 => 186,
        112 => 43,
        113 => 121,
        114 => 10,
        115 => 21,
        116 => 155,
        117 => 159,
        118 => 94,
        119 => 202,
        120 => 78,
        121 => 212,
        122 => 172,
        123 => 229,
        124 => 243,
        125 => 115,
        126 => 167,
        127 => 87,
        128 => 175,
        129 => 88,
        130 => 168,
        131 => 80,
        132 => 244,
        133 => 234,
        134 => 214,
        135 => 116,
        136 => 79,
        137 => 174,
        138 => 233,
        139 => 213,
        140 => 231,
        141 => 230,
        142 => 173,
        143 => 232,
        144 => 44,
        145 => 215,
        146 => 117,
        147 => 122,
        148 => 235,
        149 => 22,
        150 => 11,
        151 => 245,
        152 => 89,
        153 => 203,
        154 => 95,
        155 => 176,
        156 => 156,
        157 => 169,
        158 => 81,
        159 => 160,
        160 => 127,
        161 => 12,
        162 => 246,
        163 => 111,
        164 => 23,
        165 => 196,
        166 => 73,
        167 => 236,
        168 => 216,
        169 => 67,
        170 => 31,
        171 => 45,
        172 => 164,
        173 => 118,
        174 => 123,
        175 => 183,
        176 => 204,
        177 => 187,
        178 => 62,
        179 => 90,
        180 => 251,
        181 => 96,
        182 => 177,
        183 => 134,
        184 => 59,
        185 => 82,
        186 => 161,
        187 => 108,
        188 => 170,
        189 => 85,
        190 => 41,
        191 => 157,
        192 => 151,
        193 => 178,
        194 => 135,
        195 => 144,
        196 => 97,
        197 => 190,
        198 => 220,
        199 => 252,
        200 => 188,
        201 => 149,
        202 => 207,
        203 => 205,
        204 => 55,
        205 => 63,
        206 => 91,
        207 => 209,
        208 => 83,
        209 => 57,
        210 => 132,
        211 => 60,
        212 => 65,
        213 => 162,
        214 => 109,
        215 => 71,
        216 => 20,
        217 => 42,
        218 => 158,
        219 => 93,
        220 => 86,
        221 => 242,
        222 => 211,
        223 => 171,
        224 => 68,
        225 => 17,
        226 => 146,
        227 => 217,
        228 => 35,
        229 => 32,
        230 => 46,
        231 => 137,
        232 => 180,
        233 => 124,
        234 => 184,
        235 => 38,
        236 => 119,
        237 => 153,
        238 => 227,
        239 => 165,
        240 => 103,
        241 => 74,
        242 => 237,
        243 => 222,
        244 => 197,
        245 => 49,
        246 => 254,
        247 => 24,
        248 => 13,
        249 => 99,
        250 => 140,
        251 => 128,
        252 => 192,
        253 => 247,
        254 => 112,
        255 => 7,
    }
}

/// The multiplicative inverse of `x` (`0` for `x == 0` by convention).
#[verifier::opaque]
pub open spec fn inv_value(i: u8) -> u8 {
    match i {
        0 => 0,
        1 => 1,
        2 => 141,
        3 => 246,
        4 => 203,
        5 => 82,
        6 => 123,
        7 => 209,
        8 => 232,
        9 => 79,
        10 => 41,
        11 => 192,
        12 => 176,
        13 => 225,
        14 => 229,
        15 => 199,
        16 => 116,
        17 => 180,
        18 => 170,
        19 => 75,
        20 => 153,
        21 => 43,
        22 => 96,
        23 => 95,
        24 => 88,
        25 => 63,
        26 => 253,
        27 => 204,
        28 => 255,
        29 => 64,
        30 => 238,
        31 => 178,
        32 => 58,
        33 => 110,
        34 => 90,
        35 => 241,
        36 => 85,
        37 => 77,
        38 => 168,
        39 => 201,
        40 => 193,
        41 => 10,
        42 => 152,
        43 => 21,
        44 => 48,
        45 => 68,
        46 => 162,
        47 => 194,
        48 => 44,
        49 => 69,
        50 => 146,
        51 => 108,
        52 => 243,
        53 => 57,
        54 => 102,
        55 => 66,
        56 => 242,
        57 => 53,
        58 => 32,
        59 => 111,
        60 => 119,
        61 => 187,
        62 => 89,
        63 => 25,
        64 => 29,
        65 => 254,
        66 => 55,
        67 => 103,
        68 => 45,
        69 => 49,
        70 => 245,
        71 => 105,
        72 => 167,
        73 => 100,
        74 => 171,
        75 => 19,
        76 => 84,
        77 => 37,
        78 => 233,
        79 => 9,
        80 => 237,
        81 => 92,
        82 => 5,
        83 => 202,
        84 => 76,
        85 => 36,
        86 => 135,
        87 => 191,
        88 => 24,
        89 => 62,
        90 => 34,
        91 => 240,
        92 => 81,
        93 => 236,
        94 => 97,
        95 => 23,
        96 => 22,
        97 => 94,
        98 => 175,
        99 => 211,
        100 => 73,
        101 => 166,
        102 => 54,
        103 => 67,
        104 => 244,
        105 => 71,
        106 => 145,
        107 => 223,
        108 => 51,
        109 => 147,
        110 => 33,
        111 => 59,
        112 => 121,
        113 => 183,
        114 => 151,
        115 => 133,
        116 => 16,
        117 => 181,
        118 => 186,
        119 => 60,
        120 => 182,
        121 => 112,
        122 => 208,
        123 => 6,
        124 => 161,
        125 => 250,
        126 => 129,
        127 => 130,
        128 => 131,
        129 => 126,
        130 => 127,
        131 => 128,
        132 => 150,
        133 => 115,
        134 => 190,
        135 => 86,
        136 => 155,
        137 => 158,
        138 => 149,
        139 => 217,
        140 => 247,
        141 => 2,
        142 => 185,
        143 => 164,
        144 => 222,
        145 => 106,
        146 => 50,
        147 => 109,
        148 => 216,
        149 => 138,
        150 => 132,
        151 => 114,
        152 => 42,
        153 => 20,
        154 => 159,
        155 => 136,
        156 => 249,
        157 => 220,
        158 => 137,
        159 => 154,
        160 => 251,
        161 => 124,
        162 => 46,
        163 => 195,
        164 => 143,
        165 => 184,
        166 => 101,
        167 => 72,
        168 => 38,
        169 => 200,
        170 => 18,
        171 => 74,
        172 => 206,
        173 => 231,
        174 => 210,
        175 => 98,
        176 => 12,
        177 => 224,
        178 => 31,
        179 => 239,
        180 => 17,
        181 => 117,
        182 => 120,
        183 => 113,
        184 => 165,
        185 => 142,
        186 => 118,
        187 => 61,
        188 => 189,
        189 => 188,
        190 => 134,
        191 => 87,
        192 => 11,
        193 => 40,
        194 => 47,
        195 => 163,
        196 => 218,
        197 => 212,
        198 => 228,
        199 => 15,
        200 => 169,
        201 => 39,
        202 => 83,
        203 => 4,
        204 => 27,
        205 => 252,
        206 => 172,
        207 => 230,
        208 => 122,
        209 => 7,
        210 => 174,
        211 => 99,
        212 => 197,
        213 => 219,
        214 => 226,
        215 => 234,
        216 => 148,
        217 => 139,
        218 => 196,
        219 => 213,
        220 => 157,
        221 => 248,
        222 => 144,
        223 => 107,
        224 => 177,
        225 => 13,
        226 => 214,
        227 => 235,
        228 => 198,
        229 => 14,
        230 => 207,
        231 => 173,
        232 => 8,
        233 => 78,
        234 => 215,
        235 => 227,
        236 => 93,
        237 => 80,
        238 => 30,
        239 => 179,
        240 => 91,
        241 => 35,
        242 => 56,
        243 => 52,
        244 => 104,
        245 => 70,
        246 => 3,
        247 => 140,
        248 => 221,
        249 => 156,
        250 => 125,
        251 => 160,
        252 => 205,
        253 => 26,
        254 => 65,
        255 => 28,
    }
}

/// Looks up `3^(i mod 255)` for `i < 512`.
pub fn exp_lookup(i: usize) -> (r: u8)
    requires
        i < 512,
    ensures
        r == exp_value(i as u16),
{
    proof {
        reveal(exp_value);
    }
    match i {
        0 => 1,
        1 => 3,
        2 => 5,
        3 => 15,
        4 => 17,
        5 => 51,
        6 => 85,
        7 => 255,
        8 => 26,
        9 => 46,
        10 => 114,
        11 => 150,
        12 => 161,
        13 => 248,
        14 => 19,
        15 => 53,
        16 => 95,
        17 => 225,
        18 => 56,
        19 => 72,
        20 => 216,
        21 => 115,
        22 => 149,
        23 => 164,
        24 => 247,
        25 => 2,
        26 => 6,
        27 => 10,
        28 => 30,
        29 => 34,
        30 => 102,
        31 => 170,
        32 => 229,
        33 => 52,
        34 => 92,
        35 => 228,
        36 => 55,
        37 => 89,
        38 => 235,
        39 => 38,
        40 => 106,
        41 => 190,
        42 => 217,
        43 => 112,
        44 => 144,
        45 => 171,
        46 => 230,
        47 => 49,
        48 => 83,
        49 => 245,
        50 => 4,
        51 => 12,
        52 => 20,
        53 => 60,
        54 => 68,
        55 => 204,
        56 => 79,
        57 => 209,
        58 => 104,
        59 => 184,
        60 => 211,
        61 => 110,
        62 => 178,
        63 => 205,
        64 => 76,
        65 => 212,
        66 => 103,
        67 => 169,
        68 => 224,
        69 => 59,
        70 => 77,
        71 => 215,
        72 => 98,
        73 => 166,
        74 => 241,
        75 => 8,
        76 => 24,
        77 => 40,
        78 => 120,
        79 => 136,
        80 => 131,
        81 => 158,
        82 => 185,
        83 => 208,
        84 => 107,
        85 => 189,
        86 => 220,
        87 => 127,
        88 => 129,
        89 => 152,
        90 => 179,
        91 => 206,
        92 => 73,
        93 => 219,
        94 => 118,
        95 => 154,
        96 => 181,
        97 => 196,
        98 => 87,
        99 => 249,
        100 => 16,
        101 => 48,
        102 => 80,
        103 => 240,
        104 => 11,
        105 => 29,
        106 => 39,
        107 => 105,
        108 => 187,
        109 => 214,
        110 => 97,
        111 => 163,
        112 => 254,
        113 => 25,
        114 => 43,
        115 => 125,
        116 => 135,
        117 => 146,
        118 => 173,
        119 => 236,
        120 => 47,
        121 => 113,
        122 => 147,
        123 => 174,
        124 => 233,
        125 => 32,
        126 => 96,
        127 => 160,
        128 => 251,
        129 => 22,
        130 => 58,
        131 => 78,
        132 => 210,
        133 => 109,
        134 => 183,
        135 => 194,
        136 => 93,
        137 => 231,
        138 => 50,
        139 => 86,
        140 => 250,
        141 => 21,
        142 => 63,
        143 => 65,
        144 => 195,
        145 => 94,
        146 => 226,
        147 => 61,
        148 => 71,
        149 => 201,
        150 => 64,
        151 => 192,
        152 => 91,
        153 => 237,
        154 => 44,
        155 => 116,
        156 => 156,
        157 => 191,
        158 => 218,
        159 => 117,
        160 => 159,
        161 => 186,
        162 => 213,
        163 => 100,
        164 => 172,
        165 => 239,
        166 => 42,
        167 => 126,
        168 => 130,
        169 => 157,
        170 => 188,
        171 => 223,
        172 => 122,
        173 => 142,
        174 => 137,
        175 => 128,
        176 => 155,
        177 => 182,
        178 => 193,
        179 => 88,
        180 => 232,
        181 => 35,
        182 => 101,
        183 => 175,
        184 => 234,
        185 => 37,
        186 => 111,
        187 => 177,
        188 => 200,
        189 => 67,
        190 => 197,
        191 => 84,
        192 => 252,
        193 => 31,
        194 => 33,
        195 => 99,
        196 => 165,
        197 => 244,
        198 => 7,
        199 => 9,
        200 => 27,
        201 => 45,
        202 => 119,
        203 => 153,
        204 => 176,
        205 => 203,
        206 => 70,
        207 => 202,
        208 => 69,
        209 => 207,
        210 => 74,
        211 => 222,
        212 => 121,
        213 => 139,
        214 => 134,
        215 => 145,
        216 => 168,
        217 => 227,
        218 => 62,
        219 => 66,
        220 => 198,
        221 => 81,
        222 => 243,
        223 => 14,
        224 => 18,
        225 => 54,
        226 => 90,
        227 => 238,
        228 => 41,
        229 => 123,
        230 => 141,
        231 => 140,
        232 => 143,
        233 => 138,
        234 => 133,
        235 => 148,
        236 => 167,
        237 => 242,
        238 => 13,
        239 => 23,
        240 => 57,
        241 => 75,
        242 => 221,
        243 => 124,
        244 => 132,
        245 => 151,
        246 => 162,
        247 => 253,
        248 => 28,
        249 => 36,
        250 => 108,
        251 => 180,
        252 => 199,
        253 => 82,
        254 => 246,
        255 => 1,
        256 => 3,
        257 => 5,
        258 => 15,
        259 => 17,
        260 => 51,
        261 => 85,
        262 => 255,
        263 => 26,
        264 => 46,
        265 => 114,
        266 => 150,
        267 => 161,
        268 => 248,
        269 => 19,
        270 => 53,
        271 => 95,
        272 => 225,
        273 => 56,
        274 => 72,
        275 => 216,
        276 => 115,
        277 => 149,
        278 => 164,
        279 => 247,
        280 => 2,
        281 => 6,
        282 => 10,
        283 => 30,
        284 => 34,
        285 => 102,
        286 => 170,
        287 => 229,
        288 => 52,
        289 => 92,
        290 => 228,
        291 => 55,
        292 => 89,
        293 => 235,
        294 => 38,
        295 => 106,
        296 => 190,
        297 => 217,
        298 => 112,
        299 => 144,
        300 => 171,
        301 => 230,
        302 => 49,
        303 => 83,
        304 => 245,
        305 => 4,
        306 => 12,
        307 => 20,
        308 => 60,
        309 => 68,
        310 => 204,
        311 => 79,
        312 => 209,
        313 => 104,
        314 => 184,
        315 => 211,
        316 => 110,
        317 => 178,
        318 => 205,
        319 => 76,
        320 => 212,
        321 => 103,
        322 => 169,
        323 => 224,
        324 => 59,
        325 => 77,
        326 => 215,
        327 => 98,
        328 => 166,
        329 => 241,
        330 => 8,
        331 => 24,
        332 => 40,
        333 => 120,
        334 => 136,
        335 => 131,
        336 => 158,
        337 => 185,
        338 => 208,
        339 => 107,
        340 => 189,
        341 => 220,
        342 => 127,
        343 => 129,
        344 => 152,
        345 => 179,
        346 => 206,
        347 => 73,
        348 => 219,
        349 => 118,
        350 => 154,
        351 => 181,
        352 => 196,
        353 => 87,
        354 => 249,
        355 => 16,
        356 => 48,
        357 => 80,
        358 => 240,
        359 => 11,
        360 => 29,
        361 => 39,
        362 => 105,
        363 => 187,
        364 => 214,
        365 => 97,
        366 => 163,
        367 => 254,
        368 => 25,
        369 => 43,
        370 => 125,
        371 => 135,
        372 => 146,
        373 => 173,
        374 => 236,
        375 => 47,
        376 => 113,
        377 => 147,
        378 => 174,
        379 => 233,
        380 => 32,
        381 => 96,
        382 => 160,
        383 => 251,
        384 => 22,
        385 => 58,
        386 => 78,
        387 => 210,
        388 => 109,
        389 => 183,
        390 => 194,
        391 => 93,
        392 => 231,
        393 => 50,
        394 => 86,
        395 => 250,
        396 => 21,
        397 => 63,
        398 => 65,
        399 => 195,
        400 => 94,
        401 => 226,
        402 => 61,
        403 => 71,
        404 => 201,
        405 => 64,
        406 => 192,
        407 => 91,
        408 => 237,
        409 => 44,
        410 => 116,
        411 => 156,
        412 => 191,
        413 => 218,
        414 => 117,
        415 => 159,
        416 => 186,
        417 => 213,
        418 => 100,
        419 => 172,
        420 => 239,
        421 => 42,
        422 => 126,
        423 => 130,
        424 => 157,
        425 => 188,
        426 => 223,
        427 => 122,
        428 => 142,
        429 => 137,
        430 => 128,
        431 => 155,
        432 => 182,
        433 => 193,
        434 => 88,
        435 => 232,
        436 => 35,
        437 => 101,
        438 => 175,
        439 => 234,
        440 => 37,
        441 => 111,
        442 => 177,
        443 => 200,
        444 => 67,
        445 => 197,
        446 => 84,
        447 => 252,
        448 => 31,
        449 => 33,
        450 => 99,
        451 => 165,
        452 => 244,
        453 => 7,
        454 => 9,
        455 => 27,
        456 => 45,
        457 => 119,
        458 => 153,
        459 => 176,
        460 => 203,
        461 => 70,
        462 => 202,
        463 => 69,
        464 => 207,
        465 => 74,
        466 => 222,
        467 => 121,
        468 => 139,
        469 => 134,
        470 => 145,
        471 => 168,
        472 => 227,
        473 => 62,
        474 => 66,
        475 => 198,
        476 => 81,
        477 => 243,
        478 => 14,
        479 => 18,
        480 => 54,
        481 => 90,
        482 => 238,
        483 => 41,
        484 => 123,
        485 => 141,
        486 => 140,
        487 => 143,
        488 => 138,
        489 => 133,
        490 => 148,
        491 => 167,
        492 => 242,
        493 => 13,
        494 => 23,
        495 => 57,
        496 => 75,
        497 => 221,
        498 => 124,
        499 => 132,
        500 => 151,
        501 => 162,
        502 => 253,
        503 => 28,
        504 => 36,
        505 => 108,
        506 => 180,
        507 => 199,
        508 => 82,
        509 => 246,
        510 => 1,
        511 => 3,
        _ => 0,
    }
}

/// Looks up the discrete logarithm of `i` to base 3.
pub fn log_lookup(i: u8) -> (r: u8)
    ensures
        r == log_value(i),
{
    proof {
        reveal(log_value);
    }
    match i {
        0 => 0,
        1 => 0,
        2 => 25,
        3 => 1,
        4 => 50,
        5 => 2,
        6 => 26,
        7 => 198,
        8 => 75,
        9 => 199,
        10 => 27,
        11 => 104,
        12 => 51,
        13 => 238,
        14 => 223,
        15 => 3,
        16 => 100,
        17 => 4,
        18 => 224,
        19 => 14,
        20 => 52,
        21 => 141,
        22 => 129,
        23 => 239,
        24 => 76,
        25 => 113,
        26 => 8,
        27 => 200,
        28 => 248,
        29 => 105,
        30 => 28,
        31 => 193,
        32 => 125,
        33 => 194,
        34 => 29,
        35 => 181,
        36 => 249,
        37 => 185,
        38 => 39,
        39 => 106,
        40 => 77,
        41 => 228,
        42 => 166,
        43 => 114,
        44 => 154,
        45 => 201,
        46 => 9,
        47 => 120,
        48 => 101,
        49 => 47,
        50 => 138,
        51 => 5,
        52 => 33,
        53 => 15,
        54 => 225,
        55 => 36,
        56 => 18,
        57 => 240,
        58 => 130,
        59 => 69,
        60 => 53,
        61 => 147,
        62 => 218,
        63 => 142,
        64 => 150,
        65 => 143,
        66 => 219,
        67 => 189,
        68 => 54,
        69 => 208,
        70 => 206,
        71 => 148,
        72 => 19,
        73 => 92,
        74 => 210,
        75 => 241,
        76 => 64,
        77 => 70,
        78 => 131,
        79 => 56,
        80 => 102,
        81 => 221,
        82 => 253,
        83 => 48,
        84 => 191,
        85 => 6,
        86 => 139,
        87 => 98,
        88 => 179,
        89 => 37,
        90 => 226,
        91 => 152,
        92 => 34,
        93 => 136,
        94 => 145,
        95 => 16,
        96 => 126,
        97 => 110,
        98 => 72,
        99 => 195,
        100 => 163,
        101 => 182,
        102 => 30,
        103 => 66,
        104 => 58,
        105 => 107,
        106 => 40,
        107 => 84,
        108 => 250,
        109 => 133,
        110 => 61,
        111 => 186,
        112 => 43,
        113 => 121,
        114 => 10,
        115 => 21,
        116 => 155,
        117 => 159,
        118 => 94,
        119 => 202,
        120 => 78,
        121 => 212,
        122 => 172,
        123 => 229,
        124 => 243,
        125 => 115,
        126 => 167,
        127 => 87,
        128 => 175,
        129 => 88,
        130 => 168,
        131 => 80,
        132 => 244,
        133 => 234,
        134 => 214,
        135 => 116,
        136 => 79,
        137 => 174,
        138 => 233,
        139 => 213,
        140 => 231,
        141 => 230,
        142 => 173,
        143 => 232,
        144 => 44,
        145 => 215,
        146 => 117,
        147 => 122,
        148 => 235,
        149 => 22,
        150 => 11,
        151 => 245,
        152 => 89,
        153 => 203,
        154 => 95,
        155 => 176,
        156 => 156,
        157 => 169,
        158 => 81,
        159 => 160,
        160 => 127,
        161 => 12,
        162 => 246,
        163 => 111,
        164 => 23,
        165 => 196,
        166 => 73,
        167 => 236,
        168 => 216,
        169 => 67,
        170 => 31,
        171 => 45,
        172 => 164,
        173 => 118,
        174 => 123,
        175 => 183,
        176 => 204,
        177 => 187,
        178 => 62,
        179 => 90,
        180 => 251,
        181 => 96,
        182 => 177,
        183 => 134,
        184 => 59,
        185 => 82,
        186 => 161,
        187 => 108,
        188 => 170,
        189 => 85,
        190 => 41,
        191 => 157,
        192 => 151,
        193 => 178,
        194 => 135,
        195 => 144,
        196 => 97,
        197 => 190,
        198 => 220,
        199 => 252,
        200 => 188,
        201 => 149,
        202 => 207,
        203 => 205,
        204 => 55,
        205 => 63,
        206 => 91,
        207 => 209,
        208 => 83,
        209 => 57,
        210 => 132,
        211 => 60,
        212 => 65,
        213 => 162,
        214 => 109,
        215 => 71,
        216 => 20,
        217 => 42,
        218 => 158,
        219 => 93,
        220 => 86,
        221 => 242,
        222 => 211,
        223 => 171,
        224 => 68,
        225 => 17,
        226 => 146,
        227 => 217,
        228 => 35,
        229 => 32,
        230 => 46,
        231 => 137,
        232 => 180,
        233 => 124,
        234 => 184,
        235 => 38,
        236 => 119,
        237 => 153,
        238 => 227,
        239 => 165,
        240 => 103,
        241 => 74,
        242 => 237,
        243 => 222,
        244 => 197,
        245 => 49,
        246 => 254,
        247 => 24,
        248 => 13,
        249 => 99,
        250 => 140,
        251 => 128,
        252 => 192,
        253 => 247,
        254 => 112,
        255 => 7,
    }
}

/// Looks up the multiplicative inverse of `i` (`0` maps to `0`).
pub fn inv_lookup(i: u8) -> (r: u8)
    ensures
        r == inv_value(i),
{
    proof {
        reveal(inv_value);
    }
    match i {
        0 => 0,
        1 => 1,
        2 => 141,
        3 => 246,
        4 => 203,
        5 => 82,
        6 => 123,
        7 => 209,
        8 => 232,
        9 => 79,
        10 => 41,
        11 => 192,
        12 => 176,
        13 => 225,
        14 => 229,
        15 => 199,
        16 => 116,
        17 => 180,
        18 => 170,
        19 => 75,
        20 => 153,
        21 => 43,
        22 => 96,
        23 => 95,
        24 => 88,
        25 => 63,
        26 => 253,
        27 => 204,
        28 => 255,
        29 => 64,
        30 => 238,
        31 => 178,
        32 => 58,
        33 => 110,
        34 => 90,
        35 => 241,
        36 => 85,
        37 => 77,
        38 => 168,
        39 => 201,
        40 => 193,
        41 => 10,
        42 => 152,
        43 => 21,
        44 => 48,
        45 => 68,
        46 => 162,
        47 => 194,
        48 => 44,
        49 => 69,
        50 => 146,
        51 => 108,
        52 => 243,
        53 => 57,
        54 => 102,
        55 => 66,
        56 => 242,
        57 => 53,
        58 => 32,
        59 => 111,
        60 => 119,
        61 => 187,
        62 => 89,
        63 => 25,
        64 => 29,
        65 => 254,
        66 => 55,
        67 => 103,
        68 => 45,
        69 => 49,
        70 => 245,
        71 => 105,
        72 => 167,
        73 => 100,
        74 => 171,
        75 => 19,
        76 => 84,
        77 => 37,
        78 => 233,
        79 => 9,
        80 => 237,
        81 => 92,
        82 => 5,
        83 => 202,
        84 => 76,
        85 => 36,
        86 => 135,
        87 => 191,
        88 => 24,
        89 => 62,
        90 => 34,
        91 => 240,
        92 => 81,
        93 => 236,
        94 => 97,
        95 => 23,
        96 => 22,
        97 => 94,
        98 => 175,
        99 => 211,
        100 => 73,
        101 => 166,
        102 => 54,
        103 => 67,
        104 => 244,
        105 => 71,
        106 => 145,
        107 => 223,
        108 => 51,
        109 => 147,
        110 => 33,
        111 => 59,
        112 => 121,
        113 => 183,
        114 => 151,
        115 => 133,
        116 => 16,
        117 => 181,
        118 => 186,
        119 => 60,
        120 => 182,
        121 => 112,
        122 => 208,
        123 => 6,
        124 => 161,
        125 => 250,
        126 => 129,
        127 => 130,
        128 => 131,
        129 => 126,
        130 => 127,
        131 => 128,
        132 => 150,
        133 => 115,
        134 => 190,
        135 => 86,
        136 => 155,
        137 => 158,
        138 => 149,
        139 => 217,
        140 => 247,
        141 => 2,
        142 => 185,
        143 => 164,
        144 => 222,
        145 => 106,
        146 => 50,
        147 => 109,
        148 => 216,
        149 => 138,
        150 => 132,
        151 => 114,
        152 => 42,
        153 => 20,
        154 => 159,
        155 => 136,
        156 => 249,
        157 => 220,
        158 => 137,
        159 => 154,
        160 => 251,
        161 => 124,
        162 => 46,
        163 => 195,
        164 => 143,
        165 => 184,
        166 => 101,
        167 => 72,
        168 => 38,
        169 => 200,
        170 => 18,
        171 => 74,
        172 => 206,
        173 => 231,
        174 => 210,
        175 => 98,
        176 => 12,
        177 => 224,
        178 => 31,
        179 => 239,
        180 => 17,
        181 => 117,
        182 => 120,
        183 => 113,
        184 => 165,
        185 => 142,
        186 => 118,
        187 => 61,
        188 => 189,
        189 => 188,
        190 => 134,
        191 => 87,
        192 => 11,
        193 => 40,
        194 => 47,
        195 => 163,
        196 => 218,
        197 => 212,
        198 => 228,
        199 => 15,
        200 => 169,
        201 => 39,
        202 => 83,
        203 => 4,
        204 => 27,
        205 => 252,
        206 => 172,
        207 => 230,
        208 => 122,
        209 => 7,
        210 => 174,
        211 => 99,
        212 => 197,
        213 => 219,
        214 => 226,
        215 => 234,
        216 => 148,
        217 => 139,
        218 => 196,
        219 => 213,
        220 => 157,
        221 => 248,
        222 => 144,
        223 => 107,
        224 => 177,
        225 => 13,
        226 => 214,
        227 => 235,
        228 => 198,
        229 => 14,
        230 => 207,
        231 => 173,
        232 => 8,
        233 => 78,
        234 => 215,
        235 => 227,
        236 => 93,
        237 => 80,
        238 => 30,
        239 => 179,
        240 => 91,
        241 => 35,
        242 => 56,
        243 => 52,
        244 => 104,
        245 => 70,
        246 => 3,
        247 => 140,
        248 => 221,
        249 => 156,
        250 => 125,
        251 => 160,
        252 => 205,
        253 => 26,
        254 => 65,
        255 => 28,
    }
}

// ---------------------------------------------------------------------------
// Table facts checked byte by byte
// ---------------------------------------------------------------------------

#[verifier::rlimit(100)]
proof fn bv_exp_step(i: u16, e: u8, f: u8)
    by (bit_vector)
    requires
        i < 511,
        e == exp_value(i),
        f == exp_value((i + 1) as u16),
    ensures
        f == e ^ xtime(e),
{
}

#[verifier::rlimit(100)]
proof fn bv_exp_period(i: u16, e: u8, f: u8)
    by (bit_vector)
    requires
        i < 257,
        e == exp_value(i),
        f == exp_value((i + 255) as u16),
    ensures
        e == f,
{
}

#[verifier::rlimit(100)]
proof fn bv_log_exp(x: u8, l: u8, e: u8)
    by (bit_vector)
    requires
        x != 0,
        l == log_value(x),
        e == exp_value(l as u16),
    ensures
        e == x,
        l < 255,
{
}

#[verifier::rlimit(100)]
proof fn bv_exp_log(i: u8, e: u8, l: u8)
    by (bit_vector)
    requires
        i < 255,
        e == exp_value(i as u16),
        l == log_value(e),
    ensures
        l == i,
        e != 0,
{
}

#[verifier::rlimit(100)]
proof fn bv_inverse(x: u8, x1: u8, x2: u8, x3: u8, x4: u8, x5: u8, x6: u8, x7: u8, y: u8)
    by (bit_vector)
    requires
        x != 0,
        x1 == xtime(x),
        x2 == xtime(x1),
        x3 == xtime(x2),
        x4 == xtime(x3),
        x5 == xtime(x4),
        x6 == xtime(x5),
        x7 == xtime(x6),
        y == inv_value(x),
    ensures
        mul_terms(x, x1, x2, x3, x4, x5, x6, x7, y) == 1u8,
{
}

#[verifier::rlimit(100)]
proof fn bv_inverse_formula(p: u8, l: u8, e: u8, v: u8)
    by (bit_vector)
    requires
        p != 0,
        l == log_value(p),
        e == exp_value((255 - l) as u16),
        v == inv_value(p),
    ensures
        e == v,
{
}

// ---------------------------------------------------------------------------
// What the tables mean in the field
// ---------------------------------------------------------------------------

/// The exponent table lists the powers of the generator 3.
pub proof fn lemma_exp_is_power(i: nat)
    requires
        i < 512,
    ensures
        exp_value(i as u16) == gf_pow(3u8, i),
    decreases i,
{
    if i == 0 {
        assert(exp_value(0u16) == 1u8) by {
            reveal(exp_value);
        }
    } else {
        lemma_exp_is_power((i - 1) as nat);
        let e = exp_value((i - 1) as u16);
        bv_exp_step((i - 1) as u16, e, exp_value(i as u16));
        lemma_mul_identities(e);
    }
}

/// The generator has order dividing 255: `3^n == 3^(n mod 255)`.
pub proof fn lemma_generator_period(n: nat)
    ensures
        gf_pow(3u8, n) == gf_pow(3u8, n % 255),
{
    lemma_exp_is_power(255);
    assert(exp_value(255u16) == 1u8) by {
        reveal(exp_value);
    }
    let q = n / 255;
    let r = n % 255;
    vstd::arithmetic::div_mod::lemma_fundamental_div_mod(n as int, 255);
    lemma_pow_add(3u8, 255 * q, r);
    lemma_pow_mul(3u8, 255, q);
    lemma_pow_one(q);
    lemma_mul_identities(gf_pow(3u8, r));
}

/// The logarithm table inverts the exponent table on non-zero bytes.
pub proof fn lemma_log_is_discrete_log(x: u8)
    requires
        x != 0,
    ensures
        log_value(x) < 255,
        gf_pow(3u8, log_value(x) as nat) == x,
        exp_value(log_value(x) as u16) == x,
{
    bv_log_exp(x, log_value(x), exp_value(log_value(x) as u16));
    lemma_exp_is_power(log_value(x) as nat);
}

/// The inverse table holds multiplicative inverses; zero maps to zero.
pub proof fn lemma_inverse(x: u8)
    ensures
        x != 0 ==> gf_mul(x, inv_value(x)) == 1u8,
        x != 0 ==> gf_mul(inv_value(x), x) == 1u8,
        x == 0 ==> inv_value(x) == 0u8,
{
    if x == 0 {
        reveal(inv_value);
    } else {
        lemma_mul_unfold(x, inv_value(x));
        bv_inverse(
            x,
            xtime(x),
            xtime(xtime(x)),
            xtime(xtime(xtime(x))),
            xtime(xtime(xtime(xtime(x)))),
            xtime(xtime(xtime(xtime(xtime(x))))),
            xtime(xtime(xtime(xtime(xtime(xtime(x)))))),
            xtime(xtime(xtime(xtime(xtime(xtime(xtime(x))))))),
            inv_value(x),
        );
        lemma_mul_commutative(x, inv_value(x));
    }
}

/// `3^(255 - log(p))` is the inverse of a non-zero `p`.
pub proof fn lemma_inverse_by_log(p: u8)
    requires
        p != 0,
    ensures
        log_value(p) < 255,
        exp_value((255 - log_value(p)) as u16) == inv_value(p),
        gf_mul(p, exp_value((255 - log_value(p)) as u16)) == 1u8,
{
    lemma_log_is_discrete_log(p);
    bv_inverse_formula(p, log_value(p), exp_value((255 - log_value(p)) as u16), inv_value(p));
    lemma_inverse(p);
}

/// A product of non-zero elements is read off the tables as
/// `3^(log a + log b)`.
pub proof fn lemma_table_product(a: u8, b: u8)
    requires
        a != 0,
        b != 0,
    ensures
        log_value(a) + log_value(b) < 510,
        exp_value((log_value(a) + log_value(b)) as u16) == gf_mul(a, b),
{
    lemma_log_is_discrete_log(a);
    lemma_log_is_discrete_log(b);
    lemma_exp_is_power((log_value(a) + log_value(b)) as nat);
    lemma_pow_add(3u8, log_value(a) as nat, log_value(b) as nat);
}

/// The field has no zero divisors.
pub proof fn lemma_no_zero_divisors(a: u8, b: u8)
    requires
        a != 0,
        b != 0,
    ensures
        gf_mul(a, b) != 0,
{
    lemma_inverse(a);
    lemma_mul_associative(inv_value(a), a, b);
    lemma_mul_identities(b);
    lemma_mul_identities(inv_value(a));
}

/// Powers of a non-zero element read off the tables:
/// `x^e == 3^((log x * (e mod 255)) mod 255)`.
pub proof fn lemma_pow_by_log(x: u8, e: nat)
    requires
        x != 0,
    ensures
        gf_pow(x, e) == exp_value(((log_value(x) * (e % 255)) % 255) as u16),
{
    let l = log_value(x) as nat;
    lemma_log_is_discrete_log(x);
    lemma_pow_mul(3u8, l, e);
    lemma_generator_period(l * e);
    assert((l * e) % 255 == (l * (e % 255)) % 255) by {
        vstd::arithmetic::div_mod::lemma_mul_mod_noop_right(l as int, e as int, 255);
    }
    let k = (l * (e % 255)) % 255;
    assert(k < 255);
    lemma_exp_is_power(k);
}

/// Every non-zero element satisfies `x^255 == 1`.
pub proof fn lemma_order_divides_255(x: u8)
    requires
        x != 0,
    ensures
        gf_pow(x, 255) == 1u8,
{
    lemma_pow_by_log(x, 255);
    assert((log_value(x) * (255nat % 255)) % 255 == 0) by (nonlinear_arith);
    assert(exp_value(0u16) == 1u8) by {
        reveal(exp_value);
    }
}

// ---------------------------------------------------------------------------
// Building the tables from the arithmetic
// ---------------------------------------------------------------------------

/// Shift-and-add multiplication, one bit of `b` per round.
pub fn gf_mul_slow(a: u8, b: u8) -> (r: u8)
    ensures
        r == gf_mul(a, b),
{
    let ghost a0 = a;
    let ghost b0 = b;
    let mut a = a;
    let mut b = b;
    let mut result: u8 = 0;
    let mut i: usize = 0;
    proof {
        lemma_mul_acc(a0, b0);
        lemma_xor_basics(mul_acc(a, b, 8), 0u8);
    }
    while i < 8
        invariant
            i <= 8,
            result ^ mul_acc(a, b, (8 - i) as nat) == gf_mul(a0, b0),
        decreases 8 - i,
    {
        let ghost t = term(a, b, 1u8);
        let ghost rest = mul_acc(xtime(a), b >> 1u8, (8 - i - 1) as nat);
        proof {
            lemma_mul_acc_step(a, b, (8 - i) as nat);
            lemma_xor_assoc(result, t, rest);
            lemma_xor_basics(result, 0u8);
        }
        if b & 1 != 0 {
            result = result ^ a;
        }
        let hi = a & 0x80;
        a = a << 1u8;
        if hi != 0 {
            a = a ^ 0x1b;
        }
        b = b >> 1u8;
        i = i + 1;
    }
    proof {
        lemma_xor_basics(result, 0u8);
    }
    result
}

/// Builds the doubled exponent table by repeated multiplication by the
/// generator.
pub fn gen_exp() -> (table: [u8; 512])
    ensures
        forall|i: int| 0 <= i < 512 ==> table[i] == exp_value(i as u16),
{
    let mut table = [0u8; 512];
    let mut x: u8 = 1;
    let mut i: usize = 0;
    assert(exp_value(0u16) == 1u8) by {
        reveal(exp_value);
    }
    while i < 255
        invariant
            i <= 255,
            x == exp_value(i as u16),
            forall|j: int| 0 <= j < i ==> table[j] == exp_value(j as u16),
            forall|j: int| 255 <= j < 255 + i ==> table[j] == exp_value(j as u16),
        decreases 255 - i,
    {
        proof {
            bv_exp_period(i as u16, x, exp_value((i + 255) as u16));
            bv_exp_step(i as u16, x, exp_value((i + 1) as u16));
            lemma_mul_identities(x);
        }
        table[i] = x;
        table[i + 255] = x;
        x = gf_mul_slow(x, 3);
        i = i + 1;
    }
    proof {
        reveal(exp_value);
        assert(exp_value(255u16) == 1u8 && exp_value(510u16) == 1u8 && exp_value(511u16) == 3u8);
    }
    table[255] = 1;
    table[510] = 1;
    table[511] = 3;
    table
}

/// Builds the logarithm table by recording, for each power of the
/// generator, its exponent.
pub fn gen_log() -> (table: [u8; 256])
    ensures
        forall|x: int| 0 <= x < 256 ==> table[x] == log_value(x as u8),
{
    let exp = gen_exp();
    let mut table = [0u8; 256];
    let mut i: usize = 0;
    while i < 255
        invariant
            i <= 255,
            forall|j: int| 0 <= j < 512 ==> exp[j] == exp_value(j as u16),
            forall|x: int|
                0 <= x < 256 ==> table[x] == if x != 0 && log_value(x as u8) < i {
                    log_value(x as u8)
                } else {
                    0u8
                },
        decreases 255 - i,
    {
        let e = exp[i];
        proof {
            bv_exp_log(i as u8, e, log_value(e));
            assert forall|x: int| 0 <= x < 256 && x != e && x != 0 implies #[trigger] log_value(x as u8) != i by {
                bv_log_exp(x as u8, log_value(x as u8), exp_value(log_value(x as u8) as u16));
            }
        }
        table[e as usize] = i as u8;
        i = i + 1;
    }
    proof {
        assert forall|x: int| 0 <= x < 256 implies table[x] == log_value(x as u8) by {
            if x != 0 {
                bv_log_exp(x as u8, log_value(x as u8), exp_value(log_value(x as u8) as u16));
            } else {
                assert(log_value(0u8) == 0u8) by {
                    reveal(log_value);
                }
            }
        }
    }
    table
}

/// Builds the inverse table as `x^-1 = 3^(255 - log x)`.
pub fn gen_inv() -> (table: [u8; 256])
    ensures
        forall|x: int| 0 <= x < 256 ==> table[x] == inv_value(x as u8),
{
    let log = gen_log();
    let exp = gen_exp();
    let mut table = [0u8; 256];
    let mut i: usize = 1;
    while i < 256
        invariant
            1 <= i <= 256,
            forall|j: int| 0 <= j < 512 ==> exp[j] == exp_value(j as u16),
            forall|x: int| 0 <= x < 256 ==> log[x] == log_value(x as u8),
            table[0] == 0u8,
            forall|x: int| 1 <= x < i ==> table[x] == inv_value(x as u8),
        decreases 256 - i,
    {
        let l = log[i] as usize;
        proof {
            lemma_inverse_by_log(i as u8);
        }
        table[i] = exp[255 - l];
        i = i + 1;
    }
    proof {
        lemma_inverse(0u8);
    }
    table
}

} // verus!
