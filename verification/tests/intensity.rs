use commit_heatmap::intensity::{classify, IntensityBucket};

#[test]
fn classify_follows_the_thresholds() {
    assert_eq!(classify(0), IntensityBucket::Zero);
    assert_eq!(classify(1), IntensityBucket::Low);
    assert_eq!(classify(2), IntensityBucket::Medium);
    assert_eq!(classify(3), IntensityBucket::Medium);
    assert_eq!(classify(4), IntensityBucket::High);
    assert_eq!(classify(5), IntensityBucket::High);
    assert_eq!(classify(6), IntensityBucket::VeryHigh);
    assert_eq!(classify(7), IntensityBucket::VeryHigh);
    assert_eq!(classify(100), IntensityBucket::VeryHigh);
    assert_eq!(classify(u64::MAX), IntensityBucket::VeryHigh);
}

#[test]
fn classify_never_goes_down_as_the_count_goes_up() {
    let mut previous = classify(0);
    for count in 1..200u64 {
        let bucket = classify(count);
        assert!(previous <= bucket);
        assert!(previous.level() <= bucket.level());
        previous = bucket;
    }
}

#[test]
fn levels_number_the_buckets_in_order() {
    assert_eq!(IntensityBucket::Zero.level(), 0);
    assert_eq!(IntensityBucket::Low.level(), 1);
    assert_eq!(IntensityBucket::Medium.level(), 2);
    assert_eq!(IntensityBucket::High.level(), 3);
    assert_eq!(IntensityBucket::VeryHigh.level(), 4);
    assert!(IntensityBucket::Zero < IntensityBucket::Low);
    assert!(IntensityBucket::High < IntensityBucket::VeryHigh);
}
