use bsp2svg::average_color;
use bsp2svg::build_color_table;

#[test]
fn uniform_raster_yields_its_color() {
    let data: Vec<u8> = [10u8, 20, 30].repeat(16);
    assert_eq!(average_color(&data), (10, 20, 30));
}

#[test]
fn mean_is_truncated_not_rounded() {
    // channel sums (21, 1, 3) over 2 texels: means (10.5, 0.5, 1.5) -> (10, 0, 1)
    let data: Vec<u8> = vec![10, 0, 1, 11, 1, 2];
    assert_eq!(average_color(&data), (10, 0, 1));
}

#[test]
fn empty_raster_yields_black() {
    let data: Vec<u8> = Vec::new();
    assert_eq!(average_color(&data), (0, 0, 0));
}

#[test]
fn table_maps_each_texture_to_its_raster_mean() {
    let textures = vec![String::from("metal"), String::from("stone")];
    let rasters = vec![[10u8, 20, 30].repeat(4), [200u8, 100, 0].repeat(2)];
    let table = build_color_table(&textures, &rasters);
    assert_eq!(table.lookup("metal"), Some((10, 20, 30)));
    assert_eq!(table.lookup("stone"), Some((200, 100, 0)));
    assert_eq!(table.lookup("granite"), None);
}

#[test]
fn duplicate_texture_name_resolves_to_latest() {
    let textures = vec![String::from("metal"), String::from("metal")];
    let rasters = vec![vec![10u8, 20, 30], vec![1u8, 2, 3]];
    let table = build_color_table(&textures, &rasters);
    assert_eq!(table.lookup("metal"), Some((1, 2, 3)));
}
