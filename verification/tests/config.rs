use primg::config::{Config, ConfigError};
use primg::shape::ShapeType;

fn make(num_shapes: u32, out_size: usize, alpha: u8, quality: u8) -> Result<Config, ConfigError> {
    Config::new(
        String::from("in.png"),
        String::from("out.svg"),
        num_shapes,
        ShapeType::Ellipse,
        out_size,
        alpha,
        quality,
    )
}

#[test]
fn the_qualities_stand_for_runs() {
    assert_eq!(Config::runs(1), Some(1));
    assert_eq!(Config::runs(2), Some(8));
    assert_eq!(Config::runs(3), Some(16));
    assert_eq!(Config::runs(4), Some(32));
    assert_eq!(Config::runs(0), None);
    assert_eq!(Config::runs(5), None);
    assert_eq!(Config::runs(255), None);
}

#[test]
fn settings_in_order_are_taken_as_they_are() {
    let c = make(100, 1024, 128, 2).expect("settings in order");
    assert_eq!(c.in_path, "in.png");
    assert_eq!(c.out_path, "out.svg");
    assert_eq!(c.num_shapes, 100);
    assert_eq!(c.shape_type, ShapeType::Ellipse);
    assert_eq!(c.out_size, 1024);
    assert_eq!(c.alpha, 128);
    assert_eq!(c.m, 8);
    assert_eq!(make(1, 1, 1, 1).unwrap().m, 1);
    assert_eq!(make(u32::MAX, 0x1000_0000, 255, 4).unwrap().m, 32);
}

#[test]
fn each_fault_is_named() {
    assert_eq!(make(0, 1024, 128, 2).err(), Some(ConfigError::NumShapes));
    assert_eq!(make(100, 0, 128, 2).err(), Some(ConfigError::OutputSize));
    assert_eq!(make(100, 0x1000_0001, 128, 2).err(), Some(ConfigError::OutputSize));
    assert_eq!(make(100, 1024, 0, 2).err(), Some(ConfigError::Alpha));
    assert_eq!(make(100, 1024, 128, 0).err(), Some(ConfigError::Quality));
    assert_eq!(make(100, 1024, 128, 5).err(), Some(ConfigError::Quality));
}

#[test]
fn the_first_fault_is_the_one_named() {
    assert_eq!(make(0, 0, 0, 0).err(), Some(ConfigError::NumShapes));
    assert_eq!(make(1, 0, 0, 0).err(), Some(ConfigError::OutputSize));
    assert_eq!(make(1, 1, 0, 0).err(), Some(ConfigError::Alpha));
    assert_eq!(make(1, 1, 1, 0).err(), Some(ConfigError::Quality));
}
