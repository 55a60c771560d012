use raster_tiles::background::Background;
use raster_tiles::request::decode_request;
use raster_tiles::route::{ImageType, TileAddress};
use raster_tiles::status::Status;

#[test]
fn only_get_is_allowed() {
    for method in ["POST", "PUT", "DELETE", "HEAD", "OPTIONS", "get", "Get", "", "GET "] {
        assert_eq!(
            decode_request(method, "http://localhost/1/2/3.jpg").err(),
            Some(Status::MethodNotAllowed),
            "{method:?}"
        );
        assert_eq!(decode_request(method, "no url").err(), Some(Status::MethodNotAllowed));
    }
}

#[test]
fn a_target_that_is_no_absolute_url_is_not_found() {
    for target in ["", "/1/2/3.jpg", "1/2/3.jpg", "//localhost/1/2/3.jpg", "http://", "?size=x"] {
        assert_eq!(decode_request("GET", target).err(), Some(Status::NotFound), "{target:?}");
    }
}

#[test]
fn a_tile_request_is_decoded() {
    let request =
        decode_request("GET", "http://localhost:3003/12/2200/1343.webp?bg=ff0000&size=512&q=90")
            .unwrap();
    assert_eq!(request.address, TileAddress { zoom: 12, x: 2200, y: 1343 });
    assert_eq!(request.format, ImageType::Webp);
    assert_eq!(request.options.size, 512);
    assert_eq!(request.options.quality, "90");
    assert_eq!(request.options.background, Background::Rgb(255, 0, 0));
    let request = decode_request("GET", "https://tiles.example/0/0/0.jpg#top").unwrap();
    assert_eq!(request.address, TileAddress { zoom: 0, x: 0, y: 0 });
    assert_eq!(request.format, ImageType::Jpeg);
    assert_eq!(request.options.size, 256);
    assert_eq!(request.options.quality, "75");
    assert_eq!(request.options.background, Background::Alpha);
}

#[test]
fn the_query_is_percent_decoded() {
    // `%2B` is a plus sign; a bare `+` stands for a space.
    let request = decode_request("GET", "http://h/1/2/3.jpg?size=%2B64&q=%31e%2D2").unwrap();
    assert_eq!(request.options.size, 64);
    assert_eq!(request.options.quality, "1e-2");
    assert_eq!(
        decode_request("GET", "http://h/1/2/3.jpg?size=+64").err(),
        Some(Status::BadRequest)
    );
    let request = decode_request("GET", "http://h/1/2/3.jpg?b%67=00ff00&&x").unwrap();
    assert_eq!(request.options.background, Background::Rgb(0, 255, 0));
}

#[test]
fn statuses_come_in_order() {
    let status = |target: &str| decode_request("GET", target).err();
    assert_eq!(status("http://h/1/2/3.png?size=x"), Some(Status::BadRequest));
    assert_eq!(status("http://h/1/2/3.png?size=1"), Some(Status::NotFound));
    assert_eq!(status("http://h/1/2/3.jpg?bg=12345"), Some(Status::BadRequest));
    assert_eq!(status("http://h/1/2.jpg"), Some(Status::NotFound));
    assert_eq!(status("http://h"), Some(Status::NotFound));
    assert_eq!(status("http://h/1/2/3"), Some(Status::NotFound));
    assert_eq!(status("http://h/1/2/3.jpg?quality=best"), Some(Status::BadRequest));
    assert_eq!(status("data:1/2/3.jpg"), Some(Status::NotFound));
    assert_eq!(status("data:x1/2/3.jpg"), Some(Status::NotFound));
    assert_eq!(status("data:/1/2/3.jpg"), None);
}
