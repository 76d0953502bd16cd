use benchserv::address::Destination;
use benchserv::plugins::{plugin_names, plugin_path};

#[test]
fn destination_exposes_matching_family() {
    let v4 = Destination::V4 { octets: [127, 0, 0, 1], port: 8080 };
    assert!(v4.is_v4());
    assert_eq!(v4.ip_v4(), ([127, 0, 0, 1], 8080));

    let v6 = Destination::V6 { octets: [0xfe; 16], port: 443 };
    assert!(!v6.is_v4());
    assert_eq!(v6.ip_v6(), ([0xfe; 16], 443));
}

#[test]
fn plugin_listing_keeps_library_files_only() {
    let files = vec![
        String::from("echo.so"),
        String::from("readme.txt"),
        String::from("web.dll"),
        String::from("noext"),
        String::from("tcp.echo.dll"),
        String::from(".so"),
    ];
    let names = plugin_names(&files);
    assert_eq!(
        names,
        vec![
            String::from("echo"),
            String::from("web"),
            String::from("tcp"),
            String::new(),
        ]
    );
}

#[test]
fn plugin_path_joins_directory_and_file() {
    assert_eq!(plugin_path("plugins", "echo.so"), "plugins/echo.so");
    assert_eq!(plugin_path("", "a.dll"), "/a.dll");
}
