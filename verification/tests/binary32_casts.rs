use motherboard::binary32::{to_i16, to_u16, to_u32, to_u8};

fn samples() -> Vec<f32> {
    let mut v = vec![
        0.0, -0.0, 0.4, 0.5, 0.99, 1.0, 1.5, -1.5, 2.9999, -2.9999, 10.0, 20.5, 127.9, 128.0,
        255.0, 255.9, 256.0, 1000.0, 32767.0, 32767.9, 32768.0, -32768.0, -32768.9, -40000.0,
        40000.0, 65535.0, 65535.99, 65536.0, 1e9, 4e9, 4294967295.0, 4294967296.0, 1e10,
        1e20, -1e20, 1e38, f32::MAX, f32::MIN, f32::MIN_POSITIVE, 1e-40, -1e-40, 8388607.5,
        8388608.0, 16777216.0, 16777217.0, f32::NAN, -f32::NAN, f32::INFINITY, f32::NEG_INFINITY,
    ];
    // a sweep over exponents and fractions
    let mut bits: u32 = 0;
    while bits < 0xffff_0000 {
        v.push(f32::from_bits(bits));
        bits = bits.wrapping_add(0x0001_2345);
    }
    v
}

#[test]
fn casts_agree_with_as() {
    for x in samples() {
        let b = x.to_bits();
        assert_eq!(to_i16(b), x as i16, "i16 of {x:?}");
        assert_eq!(to_u8(b), x as u8, "u8 of {x:?}");
        assert_eq!(to_u16(b), x as u16, "u16 of {x:?}");
        assert_eq!(to_u32(b), x as u32, "u32 of {x:?}");
    }
}

#[test]
fn casts_exact_values() {
    assert_eq!(to_i16(1.5f32.to_bits()), 1);
    assert_eq!(to_i16((-1.5f32).to_bits()), -1);
    assert_eq!(to_i16(40000.0f32.to_bits()), 32767);
    assert_eq!(to_i16((-40000.0f32).to_bits()), -32768);
    assert_eq!(to_u8(300.0f32.to_bits()), 255);
    assert_eq!(to_u8((-3.0f32).to_bits()), 0);
    assert_eq!(to_u16(f32::NAN.to_bits()), 0);
    assert_eq!(to_u32(f32::INFINITY.to_bits()), u32::MAX);
    assert_eq!(to_u32(2500.75f32.to_bits()), 2500);
    assert_eq!(to_i16(1e-40f32.to_bits()), 0);
}
