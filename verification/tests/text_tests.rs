use font_rasterizer::compositor::RenderDirection;
use font_rasterizer::errors::{AppError, FontFaceError, SubcommandError};
use font_rasterizer::generation::{GenerationError, GenerationLayout};
use font_rasterizer::layout::RenderLayout;
use font_rasterizer::rasterization::RasterizationProperty;
use font_rasterizer::compositor::Padding;
use font_rasterizer::rasterization::{CharRaster, GlyphMetrics};
use font_rasterizer::renderer::{generate_render_data, RenderInfo, RenderSettings, RendererError};
use font_rasterizer::text::decimal;

#[test]
fn renderer_error_messages() {
    assert_eq!(RendererError::InvalidPath.message(), "Path provided is invalid");
    assert_eq!(RendererError::CreationError.message(), "Encountered error creating render file");
    assert_eq!(RendererError::TooLarge.message(), "Texture too large");
}

#[test]
fn font_face_error_messages() {
    assert_eq!(
        FontFaceError::FontOpeningError.message(),
        "Encountered error opening font file."
    );
    assert_eq!(
        FontFaceError::CreationError("bad table").message(),
        "Encountered error creating font face: bad table"
    );
}

#[test]
fn app_error_messages() {
    assert_eq!(AppError::NoFontPath.message(), "No path was provided.");
    assert_eq!(AppError::InvalidFontPath.message(), "Invalid Path.");
    assert_eq!(
        AppError::FontLoadingError(FontFaceError::FontOpeningError).message(),
        "Encountered error loading font: Encountered error opening font file.."
    );
    assert_eq!(AppError::MissingCellDim.message(), "Must provide dimension.");
    assert_eq!(AppError::InputParsingError.message(), "Encountered error parsing user input.");
    assert_eq!(
        AppError::RenderingError(RendererError::TooLarge).message(),
        "Encountered error rendering: Texture too large."
    );
}

#[test]
fn subcommand_error_messages() {
    assert_eq!(SubcommandError::NoFontPath.message(), "No path was provided.");
    assert_eq!(SubcommandError::InvalidFontPath.message(), "Invalid Path.");
    assert_eq!(
        SubcommandError::FontLoadingError(FontFaceError::CreationError("x")).message(),
        "Encountered error loading font: Encountered error creating font face: x."
    );
    assert_eq!(SubcommandError::MissingCellDim.message(), "Must provide dimension.");
    assert_eq!(
        SubcommandError::InputParsingError.message(),
        "Encountered error parsing user input."
    );
    assert_eq!(
        SubcommandError::RenderingError(RendererError::InvalidPath).message(),
        "Encountered error rendering: Path provided is invalid."
    );
}

#[test]
fn layout_labels() {
    assert_eq!(RenderLayout::Squarish.label(), "Squarish");
    assert_eq!(RenderLayout::Horizontal.label(), "Horizontal");
    assert_eq!(RenderLayout::Vertical.label(), "Vertical");
    assert_eq!(RenderLayout::Packed(false).label(), "Packed");
    assert_eq!(RenderLayout::Packed(true).label(), "Packed (flipped)");
    assert_eq!(RenderLayout::Custom(10, 3).label(), "Custom (10 3)");
    assert_eq!(RenderLayout::Custom(0, 1205).label(), "Custom (0 1205)");
}

#[test]
fn direction_and_property_labels() {
    assert_eq!(RenderDirection::LeftToRight.label(), "Left to right");
    assert_eq!(RenderDirection::TopToBottom.label(), "Top to bottom");
    assert_eq!(RasterizationProperty::Brightness.label(), "Brightness");
    assert_eq!(RasterizationProperty::Width.label(), "Width");
    assert_eq!(RasterizationProperty::Height.label(), "Height");
}

#[test]
fn generation_layout_keys_and_labels() {
    assert_eq!(GenerationLayout::keys(), vec!["square", "horizontal", "vertical"]);
    assert_eq!(GenerationLayout::Square.label(), "square");
    assert_eq!(GenerationLayout::Horizontal.label(), "horizontal");
    assert_eq!(GenerationLayout::Vertical.label(), "vertical");
}

#[test]
fn generation_layout_parses_any_case() {
    assert_eq!(GenerationLayout::parse_name("square"), Ok(GenerationLayout::Square));
    assert_eq!(GenerationLayout::parse_name("SQUARE"), Ok(GenerationLayout::Square));
    assert_eq!(GenerationLayout::parse_name("Horizontal"), Ok(GenerationLayout::Horizontal));
    assert_eq!(GenerationLayout::parse_name("vErTiCaL"), Ok(GenerationLayout::Vertical));
    assert_eq!("Vertical".parse::<GenerationLayout>(), Ok(GenerationLayout::Vertical));
    for key in GenerationLayout::keys() {
        assert!(key.parse::<GenerationLayout>().is_ok());
    }
}

#[test]
fn generation_layout_refuses_other_text() {
    assert_eq!(GenerationLayout::parse_name(""), Err(GenerationError::LayoutParsingError));
    assert_eq!(GenerationLayout::parse_name("squarish"), Err(GenerationError::LayoutParsingError));
    assert_eq!(GenerationLayout::parse_name(" square"), Err(GenerationError::LayoutParsingError));
    assert_eq!(
        GenerationLayout::from_lowercase(&"SQUARE".to_string()),
        Err(GenerationError::LayoutParsingError)
    );
    assert_eq!(
        GenerationLayout::from_lowercase(&"square".to_string()),
        Ok(GenerationLayout::Square)
    );
}

#[test]
fn decimal_digits_of_numbers() {
    assert_eq!(decimal(0), "0");
    assert_eq!(decimal(7), "7");
    assert_eq!(decimal(10), "10");
    assert_eq!(decimal(1205), "1205");
    assert_eq!(decimal(9876543210), "9876543210");
    assert_eq!(decimal(usize::MAX), usize::MAX.to_string());
}

#[test]
fn layout_choices_keep_the_chosen_variant() {
    let plain = vec![
        RenderLayout::Squarish,
        RenderLayout::Horizontal,
        RenderLayout::Vertical,
        RenderLayout::Packed(false),
        RenderLayout::Custom(10, 10),
    ];
    assert!(RenderLayout::Squarish.choices() == plain);
    assert!(RenderLayout::Vertical.choices() == plain);
    assert!(RenderLayout::Packed(false).choices() == plain);
    let flipped = RenderLayout::Packed(true).choices();
    assert!(flipped[3] == RenderLayout::Packed(true));
    assert!(flipped[4] == RenderLayout::Custom(10, 10));
    let custom = RenderLayout::Custom(3, 7).choices();
    assert!(custom[3] == RenderLayout::Packed(false));
    assert!(custom[4] == RenderLayout::Custom(3, 7));
    assert_eq!(custom.len(), 5);
}

#[test]
fn texture_name_holds_cell_and_grid() {
    let settings = RenderSettings {
        input: None,
        render_height: 8,
        render_padding: Padding { left: 1, right: 1, up: 0, down: 0 },
        render_layout: RenderLayout::Custom(12, 3),
        render_direction: RenderDirection::LeftToRight,
        sort_property: None,
        dedup_property: None,
        dedup_exact_duplicate: false,
    };
    let raster = CharRaster::new((GlyphMetrics { xmin: 0, ymin: 0, width: 10, height: 7 }, vec![0; 70]));
    let (_, info) = generate_render_data(None, None, vec![raster], &settings);
    assert_eq!(info.texture_name("Mono"), "Mono-(10w-7h)-(12H-3V)");
    assert_eq!(RenderInfo::default().texture_name(""), "-(0w-0h)-(0H-0V)");
}
