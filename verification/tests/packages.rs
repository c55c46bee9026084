use tcpros::utils::{self, CrawlError, DirTree, Package, RosVersion, SearchRoot};

#[test]
fn verify_deduplicate_packages() {
    let packages = vec![
        utils::Package {
            name: "diagnostic_msgs".into(),
            path: "/opt/ros/noetic/share/diagnostic_msgs".into(),
            version: Some(utils::RosVersion::ROS1),
        },
        utils::Package {
            name: "std_msgs".into(),
            path: "/tmp/std_msgs".into(),
            version: Some(utils::RosVersion::ROS1),
        },
        // This duplicate below should be removed
        utils::Package {
            name: "diagnostic_msgs".into(),
            path: "/code/assets/ros1_common_interfaces/common_msgs/diagnostic_msgs".into(),
            version: Some(utils::RosVersion::ROS1),
        },
        // This will be kept because the ROS Version is different
        utils::Package {
            name: "std_msgs".into(),
            path: "/ros2/std_msgs".into(),
            version: Some(utils::RosVersion::ROS2),
        },
    ];

    let deduplicated = utils::deduplicate_packages(packages);
    assert_eq!(deduplicated.len(), 3);
}

fn leaf(package_xml: Option<&str>) -> DirTree {
    DirTree {
        catkin_ignore: false,
        package_xml: package_xml.map(|s| s.as_bytes().to_vec()),
        files: Vec::new(),
        subdirs: Vec::new(),
    }
}

const STD_MSGS_XML: &str =
    "<package><name>std_msgs</name><buildtool_depend>catkin</buildtool_depend></package>";

#[test]
fn parse_package_info_reads_name_and_version() {
    let (version, name) = utils::parse_ros_package_info(STD_MSGS_XML.as_bytes()).unwrap();
    assert_eq!(name, "std_msgs");
    assert_eq!(version, Some(RosVersion::ROS1));

    let ros2 = "<package><name>rclcpp</name><buildtool_depend>ament_cmake</buildtool_depend></package>";
    let (version, name) = utils::parse_ros_package_info(ros2.as_bytes()).unwrap();
    assert_eq!(name, "rclcpp");
    assert_eq!(version, Some(RosVersion::ROS2));

    let unknown = "<package><name>mystery</name></package>";
    let (version, name) = utils::parse_ros_package_info(unknown.as_bytes()).unwrap();
    assert_eq!(name, "mystery");
    assert_eq!(version, None);
}

#[test]
fn parse_package_info_requires_a_name() {
    let nameless = "<package><buildtool_depend>catkin</buildtool_depend></package>";
    assert!(matches!(
        utils::parse_ros_package_info(nameless.as_bytes()),
        Err(CrawlError::MissingName)
    ));
}

#[test]
fn crawl_finds_nested_packages_and_honors_ignore_markers() {
    let mut root = leaf(None);
    root.subdirs.push(("std_msgs".to_string(), leaf(Some(STD_MSGS_XML))));
    let mut ignored = leaf(Some(STD_MSGS_XML));
    ignored.catkin_ignore = true;
    root.subdirs.push(("hidden".to_string(), ignored));
    let mut deeper = leaf(None);
    deeper.subdirs.push((
        "rclcpp".to_string(),
        leaf(Some("<package><name>rclcpp</name><buildtool_depend>ament_cmake</buildtool_depend></package>")),
    ));
    root.subdirs.push(("nested".to_string(), deeper));

    let roots = vec![SearchRoot { path: "/opt/ros/share".to_string(), tree: root }];
    let found = utils::crawl(&roots);
    assert_eq!(found.len(), 2);
    assert_eq!(found[0].name, "std_msgs");
    assert_eq!(found[0].path, "/opt/ros/share/std_msgs");
    assert_eq!(found[0].version, Some(RosVersion::ROS1));
    assert_eq!(found[1].name, "rclcpp");
    assert_eq!(found[1].path, "/opt/ros/share/nested/rclcpp");
}

#[test]
fn package_directories_are_not_searched_further() {
    let mut pkg_dir = leaf(Some(STD_MSGS_XML));
    pkg_dir.subdirs.push(("inner".to_string(), leaf(Some(STD_MSGS_XML))));
    let roots = vec![SearchRoot { path: "/r".to_string(), tree: pkg_dir }];
    let found = utils::crawl(&roots);
    assert_eq!(found.len(), 1);
    assert_eq!(found[0].path, "/r");
}

#[test]
fn get_message_files_collects_by_extension() {
    let mut tree = leaf(Some(STD_MSGS_XML));
    tree.files = vec!["String.msg".to_string(), "notes.txt".to_string(), "Empty.srv".to_string()];
    let mut sub = leaf(None);
    sub.files = vec!["Color.msg".to_string(), "Move.action".to_string()];
    tree.subdirs.push(("msg".to_string(), sub));

    let pkg = Package {
        name: "std_msgs".to_string(),
        path: "/r/std_msgs".to_string(),
        version: Some(RosVersion::ROS1),
    };
    let files = utils::get_message_files(&pkg, &tree);
    assert_eq!(
        files,
        vec![
            "/r/std_msgs/String.msg".to_string(),
            "/r/std_msgs/msg/Color.msg".to_string(),
            "/r/std_msgs/Empty.srv".to_string(),
            "/r/std_msgs/msg/Move.action".to_string(),
        ]
    );
}

#[test]
fn packages_equal_on_name_and_version_only() {
    let a = Package { name: "x".into(), path: "/a".into(), version: Some(RosVersion::ROS1) };
    let b = Package { name: "x".into(), path: "/b".into(), version: Some(RosVersion::ROS1) };
    let c = Package { name: "x".into(), path: "/a".into(), version: Some(RosVersion::ROS2) };
    assert!(a == b);
    assert!(a != c);
}

#[test]
fn crawl_depth_limit_stops_a_runaway_tree() {
    // a chain deeper than the limit contributes nothing
    let mut tree = leaf(None);
    for _ in 0..1100 {
        let mut parent = leaf(None);
        parent.subdirs.push(("d".to_string(), tree));
        tree = parent;
    }
    let roots = vec![SearchRoot { path: "/loop".to_string(), tree }];
    let found = utils::crawl(&roots);
    assert_eq!(found.len(), 0);
}

#[test]
fn split_search_paths_cuts_at_every_separator() {
    let pieces = utils::split_search_paths(b"/opt/ros/share:/home/user/ws::/x", b':');
    assert_eq!(
        pieces,
        vec![
            b"/opt/ros/share".to_vec(),
            b"/home/user/ws".to_vec(),
            b"".to_vec(),
            b"/x".to_vec(),
        ]
    );
    assert_eq!(utils::split_search_paths(b"", b':'), vec![b"".to_vec()]);
}
