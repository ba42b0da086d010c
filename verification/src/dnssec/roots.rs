//! The keys of the root zone that are trusted without a file.
use crate::dnssec::anchors;
use vstd::prelude::*;

verus! {

/// The key-signing key of the root zone with the tag 20326, in use since the year 2018: a public
/// exponent of three bytes behind its length, and a modulus of 256.
#[verifier::opaque]
pub open spec fn root_key_20326() -> Seq<u8> {
    seq![
        0x03u8, 0x01, 0x00, 0x01, 0xac, 0xff, 0xb4, 0x09, 0xbc, 0xc9,
        0x39, 0xf8, 0x31, 0xf7, 0xa1, 0xe5, 0xec, 0x88, 0xf7, 0xa5,
    ] + seq![
        0x92u8, 0x55, 0xec, 0x53, 0x04, 0x0b, 0xe4, 0x32, 0x02, 0x73,
        0x90, 0xa4, 0xce, 0x89, 0x6d, 0x6f, 0x90, 0x86, 0xf3, 0xc5,
    ] + seq![
        0xe1u8, 0x77, 0xfb, 0xfe, 0x11, 0x81, 0x63, 0xaa, 0xec, 0x7a,
        0xf1, 0x46, 0x2c, 0x47, 0x94, 0x59, 0x44, 0xc4, 0xe2, 0xc0,
    ] + seq![
        0x26u8, 0xbe, 0x5e, 0x98, 0xbb, 0xcd, 0xed, 0x25, 0x97, 0x82,
        0x72, 0xe1, 0xe3, 0xe0, 0x79, 0xc5, 0x09, 0x4d, 0x57, 0x3f,
    ] + seq![
        0x0eu8, 0x83, 0xc9, 0x2f, 0x02, 0xb3, 0x2d, 0x35, 0x13, 0xb1,
        0x55, 0x0b, 0x82, 0x69, 0x29, 0xc8, 0x0d, 0xd0, 0xf9, 0x2c,
    ] + seq![
        0xacu8, 0x96, 0x6d, 0x17, 0x76, 0x9f, 0xd5, 0x86, 0x7b, 0x64,
        0x7c, 0x3f, 0x38, 0x02, 0x9a, 0xbd, 0xc4, 0x81, 0x52, 0xeb,
    ] + seq![
        0x8fu8, 0x20, 0x71, 0x59, 0xec, 0xc5, 0xd2, 0x32, 0xc7, 0xc1,
        0x53, 0x7c, 0x79, 0xf4, 0xb7, 0xac, 0x28, 0xff, 0x11, 0x68,
    ] + seq![
        0x2fu8, 0x21, 0x68, 0x1b, 0xf6, 0xd6, 0xab, 0xa5, 0x55, 0x03,
        0x2b, 0xf6, 0xf9, 0xf0, 0x36, 0xbe, 0xb2, 0xaa, 0xa5, 0xb3,
    ] + seq![
        0x77u8, 0x8d, 0x6e, 0xeb, 0xfb, 0xa6, 0xbf, 0x9e, 0xa1, 0x91,
        0xbe, 0x4a, 0xb0, 0xca, 0xea, 0x75, 0x9e, 0x2f, 0x77, 0x3a,
    ] + seq![
        0x1fu8, 0x90, 0x29, 0xc7, 0x3e, 0xcb, 0x8d, 0x57, 0x35, 0xb9,
        0x32, 0x1d, 0xb0, 0x85, 0xf1, 0xb8, 0xe2, 0xd8, 0x03, 0x8f,
    ] + seq![
        0xe2u8, 0x94, 0x19, 0x92, 0x54, 0x8c, 0xee, 0x0d, 0x67, 0xdd,
        0x45, 0x47, 0xe1, 0x1d, 0xd6, 0x3a, 0xf9, 0xc9, 0xfc, 0x1c,
    ] + seq![
        0x54u8, 0x66, 0xfb, 0x68, 0x4c, 0xf0, 0x09, 0xd7, 0x19, 0x7c,
        0x2c, 0xf7, 0x9e, 0x79, 0x2a, 0xb5, 0x01, 0xe6, 0xa8, 0xa1,
    ] + seq![
        0xcau8, 0x51, 0x9a, 0xf2, 0xcb, 0x9b, 0x5f, 0x63, 0x67, 0xe9,
        0x4c, 0x0d, 0x47, 0x50, 0x24, 0x51, 0x35, 0x7b, 0xe1, 0xb5,
    ]
}

/// The key-signing key of the root zone with the tag 38696, published in the year 2024.
#[verifier::opaque]
pub open spec fn root_key_38696() -> Seq<u8> {
    seq![
        0x03u8, 0x01, 0x00, 0x01, 0xaf, 0x7a, 0x8d, 0xeb, 0xa4, 0x9d,
        0x99, 0x5a, 0x79, 0x2a, 0xef, 0xc8, 0x02, 0x63, 0xe9, 0x91,
    ] + seq![
        0xefu8, 0xdb, 0xc8, 0x61, 0x38, 0xa9, 0x31, 0xde, 0xb2, 0xc6,
        0x5d, 0x56, 0x82, 0xea, 0xb5, 0xd3, 0xb0, 0x37, 0x38, 0xe3,
    ] + seq![
        0xdfu8, 0xdc, 0x89, 0xd9, 0x6d, 0xa6, 0x4c, 0x86, 0xc0, 0x22,
        0x4d, 0x9c, 0xe0, 0x25, 0x14, 0xd2, 0x85, 0xda, 0x30, 0x68,
    ] + seq![
        0xb1u8, 0x90, 0x54, 0xe5, 0xe7, 0x87, 0xb2, 0x96, 0x90, 0x58,
        0xe9, 0x8e, 0x12, 0x56, 0x6c, 0x8c, 0x80, 0x8c, 0x40, 0xc0,
    ] + seq![
        0xb7u8, 0x69, 0xe1, 0xdb, 0x1a, 0x24, 0xa1, 0xbd, 0x9b, 0x31,
        0xe3, 0x03, 0x18, 0x4a, 0x31, 0xfc, 0x7b, 0xb5, 0x6b, 0x85,
    ] + seq![
        0xbbu8, 0xba, 0x8a, 0xbc, 0x02, 0xcd, 0x50, 0x40, 0xa4, 0x44,
        0xa3, 0x6d, 0x47, 0x69, 0x59, 0x69, 0x84, 0x9e, 0x16, 0xad,
    ] + seq![
        0x85u8, 0x6b, 0xb5, 0x8e, 0x8f, 0xac, 0x88, 0x55, 0x22, 0x44,
        0x00, 0x31, 0x9b, 0xda, 0xb2, 0x24, 0xd8, 0x3f, 0xc0, 0xe6,
    ] + seq![
        0x6au8, 0xab, 0x32, 0xff, 0x74, 0xbf, 0xea, 0xf0, 0xf9, 0x1c,
        0x45, 0x4e, 0x68, 0x50, 0xa1, 0x29, 0x52, 0x07, 0xbb, 0xd4,
    ] + seq![
        0xcdu8, 0xde, 0x8f, 0x6f, 0xfb, 0x08, 0xfa, 0xa9, 0x75, 0x5c,
        0x2e, 0x32, 0x84, 0xef, 0xa0, 0x1f, 0x99, 0x39, 0x3e, 0x18,
    ] + seq![
        0x78u8, 0x6c, 0xb1, 0x32, 0xf1, 0xe6, 0x6e, 0xbc, 0x65, 0x17,
        0x31, 0x8e, 0x1c, 0xe8, 0xa3, 0xb7, 0x33, 0x7e, 0xbb, 0x54,
    ] + seq![
        0xd0u8, 0x35, 0xab, 0x57, 0xd9, 0x70, 0x6e, 0xcd, 0x93, 0x50,
        0xd4, 0xaf, 0xac, 0xd8, 0x25, 0xe4, 0x3c, 0x86, 0x68, 0xee,
    ] + seq![
        0xceu8, 0x89, 0x81, 0x9c, 0xaf, 0x68, 0x17, 0xaf, 0x62, 0xdc,
        0x4f, 0xbd, 0x82, 0xf0, 0xe3, 0x3f, 0x66, 0x47, 0xb2, 0xb6,
    ] + seq![
        0xbdu8, 0xa1, 0x75, 0xf1, 0x46, 0x07, 0xf5, 0x9f, 0x46, 0x35,
        0x45, 0x1e, 0x6b, 0x27, 0xdf, 0x28, 0x2e, 0xf7, 0x3d, 0x87,
    ]
}

/// The keys of the root zone, both of algorithm eight, RSA with SHA-256.
pub open spec fn root_keys() -> Seq<anchors::AnchorV> {
    seq![(8u8, root_key_20326()), (8u8, root_key_38696())]
}

} // verus!
