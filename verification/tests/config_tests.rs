use std::path::PathBuf;

use kaffe::Kaffe;

#[test]
fn new_keeps_every_field() {
    let k = Kaffe::new(
        PathBuf::from("client/dist/components"),
        String::from("client.js"),
        String::from("server.js"),
        String::from("template.html"),
        8080,
    );
    assert_eq!(k.client_build_dir, PathBuf::from("client/dist/components"));
    assert_eq!(k.client_bundle_path, "client.js");
    assert_eq!(k.server_bundle_path, "server.js");
    assert_eq!(k.html_template_path, "template.html");
    assert_eq!(k.server_port, 8080);
}
