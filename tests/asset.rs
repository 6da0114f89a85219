use polyline_batch::AssetLoader;

#[test]
fn shader_path_components() {
    let loader = AssetLoader::new("./assets".to_string());
    assert_eq!(loader.base_path(), "./assets");
    assert_eq!(
        loader.shader_path("line.vert.spv"),
        vec!["./assets".to_string(), "compiled_shaders".to_string(), "line.vert.spv".to_string()]
    );
}

#[test]
fn asset_path_components() {
    let loader = AssetLoader::new("/games/lines".to_string());
    assert_eq!(
        loader.asset_path("world/map.ron"),
        vec!["/games/lines".to_string(), "world/map.ron".to_string()]
    );
}
