use mpeg_ox::bmp::BmpImage;
use mpeg_ox::ppm::write_ppm;

#[test]
fn simple_bmp() {
    let pixels: Vec<u8> = vec![255, 0, 0, 0, 255, 0, 0, 0, 255];
    let bmp = BmpImage {};
    let mut out: Vec<u8> = vec![];
    bmp.write(3, 1, &pixels, &mut out);
    let expect: Vec<u8> = vec![
        b'B', b'M', 38, 0, 0, 0, 0, 0, 0, 0, 26, 0, 0, 0,
        12, 0, 0, 0, 3, 0, 1, 0, 1, 0, 24, 0,
        255, 0, 0, 0, 255, 0, 0, 0, 255, 0, 0, 0,
    ];
    assert_eq!(out, expect);
}

#[test]
fn bmp_rows_are_bottom_up() {
    let pixels: Vec<u8> = vec![1, 2, 3, 4, 5, 6, 7, 8, 9, 10, 11, 12];
    let mut out: Vec<u8> = vec![];
    BmpImage {}.write(2, 2, &pixels, &mut out);
    assert_eq!(out.len(), 26 + 2 * 8);
    assert_eq!(&out[2..6], &[42, 0, 0, 0]);
    assert_eq!(&out[26..34], &[7, 8, 9, 10, 11, 12, 0, 0]);
    assert_eq!(&out[34..42], &[1, 2, 3, 4, 5, 6, 0, 0]);
}

#[test]
fn ppm_text() {
    let mut out: Vec<u8> = vec![];
    write_ppm(2, 1, &vec![1, 22, 255, 0, 100, 9], &mut out);
    assert_eq!(String::from_utf8(out).unwrap(), "P3\n2 1\n255\n1 22 255 0 100 9 \n");
}
