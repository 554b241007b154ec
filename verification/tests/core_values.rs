use trmrs_core::dimensions::Dimensions;
use trmrs_core::hello_world;

#[test]
fn test_dimensions_display() {
    let dim = Dimensions {
        width: 1920,
        height: 1080,
    };
    assert_eq!(dim.display_string(), "1920x1080");
}

#[test]
fn test_fits_in_true() {
    let small = Dimensions {
        width: 800,
        height: 600,
    };
    let large = Dimensions {
        width: 1920,
        height: 1080,
    };
    assert!(small.fits_in(&large));
}

#[test]
fn test_fits_in_false() {
    let large = Dimensions {
        width: 1920,
        height: 1080,
    };
    let small = Dimensions {
        width: 800,
        height: 600,
    };
    assert!(!large.fits_in(&small));
}

#[test]
fn test_fits_in_equal() {
    let dim1 = Dimensions {
        width: 1024,
        height: 768,
    };
    let dim2 = Dimensions {
        width: 1024,
        height: 768,
    };
    assert!(dim1.fits_in(&dim2));
}

#[test]
fn test_fits_in_partial() {
    let dim1 = Dimensions {
        width: 800,
        height: 1200,
    };
    let dim2 = Dimensions {
        width: 1000,
        height: 800,
    };
    assert!(!dim1.fits_in(&dim2));
    assert!(!dim2.fits_in(&dim1));
}

#[test]
fn test_area() {
    let dim = Dimensions {
        width: 10,
        height: 20,
    };
    assert_eq!(dim.area(), 200);
}

#[test]
fn test_fmt() {
    let dim = Dimensions {
        width: 10,
        height: 20,
    };
    assert_eq!(dim.display_string(), "10x20");
}

#[test]
fn test_hello_world() {
    let result = hello_world();
    assert_eq!(result, "Hello from TRMRS core!");
}

#[test]
fn test_compose_status_text() {
    let msg = trmrs_core::compose_status_text("192.168.1.7");
    assert_eq!(msg, "Hello from TRMRS core!\n192.168.1.7");
}

#[test]
fn test_display_string_zero() {
    let dim = Dimensions {
        width: 0,
        height: 100,
    };
    assert_eq!(dim.display_string(), "0x100");
}
