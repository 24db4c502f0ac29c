use cast2gif::cli::{bar_label, parse_crop, BarLabel};
use cast2gif::{CropSettings, Error};

fn crop(text: &str) -> Result<Option<CropSettings>, Error> {
    parse_crop(text.as_bytes())
}

fn is_value_error(r: Result<Option<CropSettings>, Error>) -> bool {
    match r {
        Err(Error::Generic(m)) => m == "Could not parse crop value as int",
        _ => false,
    }
}

#[test]
fn full_crop_setting_is_read() {
    assert_eq!(
        crop("top=1,left=2,width=30,height=4").unwrap(),
        Some(CropSettings { top: 1, left: 2, width: 30, height: 4 })
    );
}

#[test]
fn crop_items_may_come_in_any_order() {
    assert_eq!(
        crop("height=65535,width=0,top=007,left=+12").unwrap(),
        Some(CropSettings { top: 7, left: 12, width: 0, height: 65535 })
    );
}

#[test]
fn later_crop_item_overrides_an_earlier_one() {
    assert_eq!(
        crop("top=1,left=2,width=3,height=4,top=9").unwrap(),
        Some(CropSettings { top: 9, left: 2, width: 3, height: 4 })
    );
}

#[test]
fn crop_with_a_missing_field_is_no_setting() {
    assert_eq!(crop("top=1,left=2,width=30").unwrap(), None);
    assert_eq!(crop("").unwrap(), None);
    assert_eq!(crop(",,").unwrap(), None);
    assert_eq!(crop("top").unwrap(), None);
}

#[test]
fn unknown_crop_items_are_passed_over() {
    assert_eq!(
        crop("top=1,bottom=5,left=2,Width=8,width=3,height=4,tops=6,").unwrap(),
        Some(CropSettings { top: 1, left: 2, width: 3, height: 4 })
    );
}

#[test]
fn crop_value_ends_at_the_second_equals_sign() {
    assert_eq!(
        crop("top=1=x,left=2,width=3,height=4").unwrap(),
        Some(CropSettings { top: 1, left: 2, width: 3, height: 4 })
    );
}

#[test]
fn crop_value_that_is_no_number_is_an_error() {
    assert!(is_value_error(crop("top=a,left=2,width=3,height=4")));
    assert!(is_value_error(crop("top=,left=2")));
    assert!(is_value_error(crop("top=+")));
    assert!(is_value_error(crop("top=-1")));
    assert!(is_value_error(crop("top= 1")));
    assert!(is_value_error(crop("top=1.5")));
    assert!(is_value_error(crop("other=x")));
    assert!(is_value_error(crop("=")));
}

#[test]
fn crop_value_beyond_sixteen_bits_is_an_error() {
    assert!(is_value_error(crop("top=65536")));
    assert!(is_value_error(crop("top=99999999999999999999999999")));
    assert_eq!(crop("top=0000000000000000000065535").unwrap(), None);
}

#[test]
fn bar_label_follows_position_and_state() {
    assert_eq!(bar_label(0, false), BarLabel::Waiting);
    assert_eq!(bar_label(0, true), BarLabel::Done);
    assert_eq!(bar_label(1, false), BarLabel::Working);
    assert_eq!(bar_label(10, true), BarLabel::Working);
}
