use ctf_arena::arena::{
    bridge_interface_name, container_spec, create_arena, set_lan_eth0_ip, PLAYER_01_PORT,
    PLAYER_02_PORT,
};
use ctf_arena::core_api::{auth, index};
use ctf_arena::network::{get_arena_device, get_container_network_info, network_main};

fn s(x: &str) -> String {
    x.to_string()
}

#[test]
fn auth_replies() {
    assert_eq!(auth(None), "Failed");
    assert_eq!(auth(Some("1234")), "Xin chao1234");
    assert_eq!(auth(Some("12345")), "Cut' lon. xao` me");
    assert_eq!(auth(Some("")), "Cut' lon. xao` me");
}

#[test]
fn index_replies() {
    assert_eq!(index(None), "Failed");
    assert_eq!(index(Some("123")), "123");
    assert_eq!(index(Some("1234")), "Ok");
}

#[test]
fn arena_device_is_the_first_name_match_ignoring_case() {
    let names = vec![s("lo"), s("BR-0123456789ab"), s("br-0123456789ab")];
    assert_eq!(get_arena_device(&names, "br-0123456789ab"), Ok(1));
    assert_eq!(get_arena_device(&names, "eth0"), Err("failed getting arena device"));
    assert_eq!(get_arena_device(&vec![], "eth0"), Err("failed getting arena device"));
}

#[test]
fn placeholders_do_nothing() {
    network_main();
    get_container_network_info();
}

#[test]
fn arena_plan_has_two_images_and_two_containers() {
    let plan = create_arena();
    assert_eq!(plan.images, vec![s("battlefield:c1"), s("battlefield:c2")]);
    assert_eq!(plan.containers.len(), 2);
    let c = &plan.containers[0];
    assert_eq!(c.name, "usa");
    assert_eq!(c.image, "battlefield:c1");
    assert_eq!(c.host_port, "50001");
    let c = &plan.containers[1];
    assert_eq!(c.name, "ussr");
    assert_eq!(c.image, "battlefield:c2");
    assert_eq!(c.host_port, "40001");
    assert_eq!(PLAYER_01_PORT, 50001);
    assert_eq!(PLAYER_02_PORT, 40001);
}

#[test]
fn container_spec_binds_the_exposed_port() {
    let c = container_spec("box", "img:1", 8080);
    assert_eq!(c.name, "box");
    assert_eq!(c.image, "img:1");
    assert_eq!(c.exposed_port, "5000/tcp");
    assert_eq!(c.host_ip, "0.0.0.0");
    assert_eq!(c.host_port, "8080");
    assert!(c.privileged);
    assert_eq!(c.network_mode, "cold_war");
}

#[test]
fn bridge_name_takes_twelve_bytes_of_the_id() {
    assert_eq!(bridge_interface_name("0123456789abcdef0123"), "br-0123456789ab");
    assert_eq!(bridge_interface_name("0123456789ab"), "br-0123456789ab");
}

#[test]
fn lan_address_comes_from_eth0() {
    let mut ip = String::new();
    set_lan_eth0_ip(&mut ip, &vec![(s("lo"), s("127.0.0.1")), (s("ETH0"), s("192.168.1.2"))]);
    assert_eq!(ip, "192.168.1.2");
    let mut ip = s("x");
    set_lan_eth0_ip(&mut ip, &vec![(s("eth0"), s("a")), (s("eth0"), s("b"))]);
    assert_eq!(ip, "bax");
    let mut ip = s("keep");
    set_lan_eth0_ip(&mut ip, &vec![(s("wlan0"), s("10.0.0.1"))]);
    assert_eq!(ip, "keep");
}
