use screenshotter::geometry::RegionError;
use screenshotter::util::LRegion;

fn region(x: i32, y: i32, width: i32, height: i32) -> LRegion {
    LRegion { x, y, width, height }
}

#[test]
fn regions_are_written() {
    assert_eq!(region(1, 2, 3, 4).to_string(), "1,2 3x4");
    assert_eq!(
        region(i32::MIN, -5, i32::MAX, 0).to_string(),
        "-2147483648,-5 2147483647x0"
    );
}

#[test]
fn regions_are_read() {
    assert_eq!(LRegion::parse("1,2 3x4"), Ok(region(1, 2, 3, 4)));
    assert_eq!(LRegion::parse("  -1,+2 3x-4\n"), Ok(region(-1, 2, 3, -4)));
    assert_eq!(
        LRegion::parse("-2147483648,0 2147483647x1"),
        Ok(region(i32::MIN, 0, i32::MAX, 1))
    );
}

#[test]
fn regions_without_separator_are_refused() {
    assert_eq!(LRegion::parse(""), Err(RegionError::Shape));
    assert_eq!(LRegion::parse("1 2 3x4"), Err(RegionError::Shape));
    assert_eq!(LRegion::parse("1,2,3x4"), Err(RegionError::Shape));
    assert_eq!(LRegion::parse("1,2 3"), Err(RegionError::Shape));
}

#[test]
fn regions_with_bad_numbers_are_refused() {
    assert_eq!(LRegion::parse("1,2 3x4x5"), Err(RegionError::Number));
    assert_eq!(LRegion::parse("1, 2 3x4"), Err(RegionError::Number));
    assert_eq!(LRegion::parse("2147483648,2 3x4"), Err(RegionError::Number));
    assert_eq!(LRegion::parse("1,2 3x4 5"), Err(RegionError::Number));
    assert_eq!(LRegion::parse("-,2 3x4"), Err(RegionError::Number));
}

#[test]
fn written_regions_read_back() {
    for r in [
        region(0, 0, 0, 0),
        region(i32::MIN, i32::MAX, -1, 10),
        region(1920, -1080, 2560, 1440),
    ] {
        assert_eq!(LRegion::parse(&r.to_string()), Ok(r));
    }
}
