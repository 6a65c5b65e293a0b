use ggengine::datacore::assets::{
    AssetFormat, AssetManager, AudioAssetFormat, ConfigAssetFormat, FontAssetFormat, ImageAssetFormat,
};
use ggengine::datacore::audio::{AudioChannels, AudioSystem, SampleFormat, Volume, MAX_VOLUME};
use ggengine::datacore::fonts::{FontHinting, FontShowMode, GlyphMetrics, PartialFont};
use ggengine::datacore::images::{ImageArea, PixelFormat};
use ggengine::graphicscore::primitives::BlendingType;
use ggengine::graphicscore::textures::AccessType;
use ggengine::mathcore::ext::{Color, Sign};
use ggengine::mathcore::vectors::Vector2Int;
use ggengine::utils::{FullscreenType, InitialSizing, Ping, Position, WindowSettings};

#[test]
fn sign_negation_and_product() {
    let mut sign = Sign::Positive;
    sign = -sign;
    assert_eq!(sign, Sign::Negative * Sign::Positive);
    assert_eq!(1 * sign.value(), -1);
    assert_eq!(-(-Sign::Negative), Sign::Negative);
    assert_eq!(-Sign::Zero, Sign::Zero);
    assert_eq!(Sign::Negative * Sign::Negative, Sign::Positive);
    assert_eq!(Sign::Zero * Sign::Negative, Sign::Zero);
    assert_eq!(Sign::Positive * Sign::Negative, Sign::Negative * Sign::Positive);
}

#[test]
fn sign_of_integers() {
    assert_eq!(Sign::from(-12), Sign::Negative);
    assert_eq!(Sign::from(0), Sign::Zero);
    assert_eq!(Sign::from(7), Sign::Positive);
    assert_eq!(Sign::from(-3 * 4), Sign::from(-3) * Sign::from(4));
}

#[test]
fn volume_is_clamped() {
    assert_eq!(Volume::from(64).get(), 64);
    assert_eq!(Volume::from(200).get(), MAX_VOLUME);
    assert_eq!(Volume::from(128).get(), 128);
    assert_eq!(Volume::max().get(), 128);
    assert_eq!(Volume::silence().get(), 0);
    assert_eq!(Volume::default().get(), 0);
    assert_eq!(Volume::from(Volume::from(255).get()).get(), 128);
}

#[test]
fn audio_settings() {
    assert_eq!(AudioChannels::default(), AudioChannels::Stereo);
    assert_eq!(AudioChannels::Stereo.count(), 2);
    assert_eq!(AudioChannels::FiveOne.count(), 6);
    assert_eq!(AudioChannels::SevenOne.count(), 8);
    assert_eq!(SampleFormat::default(), SampleFormat::S32LSB);
    assert_eq!(SampleFormat::U16MSB.sample_bits(), 16);
    assert_eq!(SampleFormat::F32LSB.sample_bits(), 32);
    let system = AudioSystem::default();
    assert_eq!(system.frequency, 22050);
    assert_eq!(system.chunk_size, 512);
    assert_eq!(system.channels, AudioChannels::Stereo);
}

#[test]
fn image_area_normalizes_its_corners() {
    let area = ImageArea::from(((100, 100), (200, 200)));
    assert_eq!(area.width(), 100);
    assert_eq!(area.height(), 100);
    let area = ImageArea::from(((200, 100), (100, 200)));
    assert_eq!(area.left_upper(), (100, 100));
    let area = ImageArea::from(((100, 200), (200, 100)));
    assert_eq!(area.right_lower(), (200, 200));
    let swapped = ImageArea::from(((30, 5), (10, 50)));
    assert_eq!(swapped.left_upper(), (10, 5));
    assert_eq!(swapped.right_lower(), (30, 50));
    assert_eq!(swapped.width(), 20);
    assert_eq!(swapped.height(), 45);
    let empty = ImageArea::default();
    assert_eq!(empty.width(), 0);
}

#[test]
fn pixel_formats() {
    assert_eq!(PixelFormat::RGB332.pixel_byte_size(), 1);
    assert_eq!(PixelFormat::RGB565.pixel_byte_size(), 2);
    assert_eq!(PixelFormat::BGR24.pixel_byte_size(), 3);
    assert_eq!(PixelFormat::ARGB2101010.pixel_byte_size(), 4);
    assert!(PixelFormat::RGBA8888.supports_alpha());
    assert!(PixelFormat::BGRA5551.supports_alpha());
    assert!(!PixelFormat::RGBX8888.supports_alpha());
    assert!(!PixelFormat::RGB24.supports_alpha());
}

#[test]
fn colors() {
    let color = Color::from_rgba(1, 2, 3, 4);
    assert_eq!(color.to_rgba(), (1, 2, 3, 4));
    assert_eq!(Color::white().to_rgba(), (255, 255, 255, 255));
    assert_eq!(Color::black().to_rgba(), (0, 0, 0, 255));
}

#[test]
fn fonts() {
    let font = PartialFont::new(String::from("fonts/mono.ttf"));
    assert_eq!(font.filename(), "fonts/mono.ttf");
    let mode = FontShowMode::Shaded { color: Color::black(), background: Color::white() };
    assert_ne!(mode, FontShowMode::Solid { color: Color::black() });
    assert_ne!(FontHinting::Mono, FontHinting::Light);
    let metrics = GlyphMetrics { min: Vector2Int::zero(), max: Vector2Int::one(), advance: 3 };
    assert_eq!(metrics.max.x - metrics.min.x, 1);
}

#[test]
fn integer_vectors() {
    let a = Vector2Int { x: 2, y: 3 };
    let b = Vector2Int { x: -1, y: 4 };
    assert_eq!(a.dot_product(b), 10);
    assert_eq!(a.cross_product(b), 11);
    assert_eq!(b.cross_product(a), -11);
    assert_eq!(a.sqr_magnitude(), 13);
    assert_eq!(a.as_array(), [2, 3]);
    assert_eq!(Vector2Int::zero(), Vector2Int { x: 0, y: 0 });
}

#[test]
fn asset_paths() {
    let manager = AssetManager::at(String::from("assets"));
    assert_eq!(manager.root_directory(), "assets");
    assert_eq!(manager.full_path("hero.png", &ImageAssetFormat), "assets/images/hero.png");
    assert_eq!(manager.full_path("theme.ogg", &AudioAssetFormat), "assets/audio/theme.ogg");
    assert_eq!(manager.full_path("mono.ttf", &FontAssetFormat), "assets/fonts/mono.ttf");
    assert_eq!(ConfigAssetFormat.format_folder(), "configs");
}

#[test]
fn window_settings_default() {
    let settings = WindowSettings::default();
    assert!(settings.position.is_none());
    assert!(settings.is_resizable);
    assert!(settings.allow_high_dpi);
    assert!(!settings.is_hidden);
    let custom = WindowSettings {
        position: Some(Position::Centered),
        initial_fullscreen: Some(FullscreenType::Fullscreen),
        initial_sizing: Some(InitialSizing::Maximized),
        ..WindowSettings::default()
    };
    assert_eq!(custom.position, Some(Position::Centered));
    assert!(custom.is_resizable);
    assert_ne!(Ping::Briefly, Ping::UntilFocused);
    assert_ne!(BlendingType::Alpha, BlendingType::NoBlending);
    assert_ne!(AccessType::Static, AccessType::Targeted);
}

#[test]
fn integer_vector_arithmetic() {
    let a = Vector2Int { x: 2, y: 3 };
    let b = Vector2Int { x: -1, y: 4 };
    assert_eq!(a + b, Vector2Int { x: 1, y: 7 });
    assert_eq!((a + b) - b, a);
    assert_eq!(-a, Vector2Int { x: -2, y: -3 });
    assert_eq!(a * 3, Vector2Int { x: 6, y: 9 });
    assert_eq!(a.cross_product(b), -b.cross_product(a));
    assert_eq!(a.dot_product(b), b.dot_product(a));
}

#[test]
fn named_colors() {
    assert_eq!(Color::red().to_rgba(), (255, 0, 0, 255));
    assert_eq!(Color::green().to_rgba(), (0, 255, 0, 255));
    assert_eq!(Color::blue().to_rgba(), (0, 0, 255, 255));
    assert_eq!(Color::yellow().to_rgba(), (255, 255, 0, 255));
    assert_eq!(Color::cyan().to_rgba(), (0, 255, 255, 255));
    assert_eq!(Color::magenta().to_rgba(), (255, 0, 255, 255));
}

#[test]
fn pixel_offset_counts_columns_and_rows() {
    assert_eq!(ggengine::datacore::images::pixel_offset(100, 200, 4, 1024), Some(100 * 4 + 200 * 1024));
    assert_eq!(ggengine::datacore::images::pixel_offset(0, 0, 4, 1024), Some(0));
    assert_eq!(ggengine::datacore::images::pixel_offset(3, 0, 3, 0), Some(9));
    assert_eq!(ggengine::datacore::images::pixel_offset(1, 0, usize::MAX, 0), Some(usize::MAX));
    assert_eq!(ggengine::datacore::images::pixel_offset(2, 0, usize::MAX, 0), None);
    assert_eq!(ggengine::datacore::images::pixel_offset(1, 1, usize::MAX, 1), None);
}
