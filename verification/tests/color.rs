use rustbow::color_gen::{MixMethod, Rgba8};

fn rgba(r: u8, g: u8, b: u8, a: u8) -> Rgba8 {
    Rgba8 { r, g, b, a }
}

#[test]
fn additive_clamps_at_255() {
    let base = rgba(200, 10, 0, 7);
    let m = rgba(100, 20, 255, 99);
    assert_eq!(MixMethod::Additive.mix(base, m), rgba(255, 30, 255, 7));
}

#[test]
fn multiply_scales() {
    let base = rgba(200, 100, 255, 7);
    let m = rgba(128, 255, 0, 1);
    assert_eq!(MixMethod::Multiply.mix(base, m), rgba(100, 100, 0, 7));
}

#[test]
fn additive_black_is_identity() {
    let base = rgba(1, 2, 3, 4);
    assert_eq!(MixMethod::Additive.mix(base, rgba(0, 0, 0, 200)), base);
}

#[test]
fn multiply_white_is_identity() {
    let base = rgba(17, 128, 254, 3);
    assert_eq!(MixMethod::Multiply.mix(base, rgba(255, 255, 255, 0)), base);
}

#[test]
fn multiply_black_is_black() {
    let base = rgba(17, 128, 254, 3);
    assert_eq!(MixMethod::Multiply.mix(base, rgba(0, 0, 0, 9)), rgba(0, 0, 0, 3));
}

#[test]
fn multiply_darkens_additive_brightens() {
    let base = rgba(90, 160, 30, 0);
    let m = rgba(77, 200, 250, 0);
    let d = MixMethod::Multiply.mix(base, m);
    let b = MixMethod::Additive.mix(base, m);
    assert!(d.r <= base.r && d.g <= base.g && d.b <= base.b);
    assert!(b.r >= base.r && b.g >= base.g && b.b >= base.b);
}
