use mpeg_ox::idct::plm_video_idct;
use mpeg_ox::idct_23002_2::idct_23002_2;
use mpeg_ox::vlc::VIDEO_PREMULTIPLIER_MATRIX;

#[test]
fn idct() {
    // Test matrix taken from https://en.wikipedia.org/wiki/JPEG#Discrete_cosine_transform
    let mut m: [i32; 8 * 8] = [
        -416, -33, -60, 32, 48, -40, 0, 0,
        0, -24, -56, 19, 26, 0, 0, 0,
        -42, 13, 80, -24, -40, 0, 0, 0,
        -42, 17, 44, -29, 0, 0, 0, 0,
        18, 0, 0, 0, 0, 0, 0, 0,
        0, 0, 0, 0, 0, 0, 0, 0,
        0, 0, 0, 0, 0, 0, 0, 0,
        0, 0, 0, 0, 0, 0, 0, 0,
    ];
    let mut m2: [i32; 8 * 8] = m.clone();

    idct_23002_2(&mut m);

    let expect: [i32; 8 * 8] = [
        -66, -63, -71, -68, -56, -65, -68, -46,
        -71, -73, -72, -46, -20, -41, -66, -57,
        -70, -78, -68, -17, 20, -14, -61, -63,
        -63, -73, -62, -8, 27, -14, -60, -58,
        -58, -65, -61, -27, -6, -40, -68, -50,
        -57, -57, -64, -58, -48, -66, -72, -47,
        -53, -46, -61, -74, -65, -63, -62, -45,
        -47, -34, -53, -74, -60, -47, -47, -41,
    ];
    assert_eq!(m, expect);

    // The primary transform needs premultiplied input to compute results
    // close to the scaled one.
    for i in 0..64 {
        m2[i] *= VIDEO_PREMULTIPLIER_MATRIX[i];
    }

    plm_video_idct(&mut m2);

    let mut delta = 0i32;
    for i in 0..64 {
        delta += i32::abs(m2[i] - expect[i]);
    }

    assert!(delta < 5);
}

#[test]
fn primary_idct_of_dc_only_block_is_flat() {
    // A DC term of 128 << 8 spreads evenly: every output is 128 * 256 / 256 / 8 * 8.
    let mut b = [0i32; 64];
    b[0] = 100 * 32;
    plm_video_idct(&mut b);
    let first = b[0];
    for v in b.iter() {
        assert_eq!(*v, first);
    }
    assert_eq!(first, 13);
}

#[test]
fn primary_idct_of_zero_block_is_zero() {
    let mut b = [0i32; 64];
    plm_video_idct(&mut b);
    assert_eq!(b, [0i32; 64]);
}

#[test]
fn scaled_idct_of_zero_block_is_zero() {
    let mut b = [0i32; 64];
    idct_23002_2(&mut b);
    assert_eq!(b, [0i32; 64]);
}
