use peekr::containers::{container_info, container_infos, ContainerSummary};

fn summary(name: Option<&str>) -> ContainerSummary {
    ContainerSummary {
        id: Some("abc123".to_string()),
        first_name: name.map(|s| s.to_string()),
        image: Some("nginx:latest".to_string()),
        state: Some("Running".to_string()),
        status: Some("Up 5 minutes".to_string()),
        project_label: Some("shop".to_string()),
    }
}

#[test]
fn container_names_lose_leading_slashes() {
    let c = container_info(summary(Some("/web")));
    assert_eq!(c.name, "web");
    assert_eq!(container_info(summary(Some("//a/b"))).name, "a/b");
    assert_eq!(c.id, "abc123");
    assert_eq!(c.image, "nginx:latest");
    assert_eq!(c.state, "Running");
    assert_eq!(c.status, "Up 5 minutes");
    assert_eq!(c.project, "shop");
}

#[test]
fn absent_container_fields_are_empty() {
    let c = container_info(ContainerSummary {
        id: None,
        first_name: None,
        image: None,
        state: None,
        status: None,
        project_label: None,
    });
    assert_eq!(
        (c.id, c.name, c.image, c.state, c.status, c.project),
        (String::new(), String::new(), String::new(), String::new(), String::new(), String::new())
    );
}

#[test]
fn container_listing_keeps_order() {
    let list = container_infos(vec![summary(Some("/one")), summary(Some("/two")), summary(None)]);
    let names: Vec<&str> = list.iter().map(|c| c.name.as_str()).collect();
    assert_eq!(names, vec!["one", "two", ""]);
}
