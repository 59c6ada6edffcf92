//! The arena's layout: the two players' images, containers and ports, the
//! Docker network, and what is derived from the host and the network.

use vstd::prelude::*;
use crate::text::{decimal, decimal_string, eq_ignore_ascii_case, eq_ignore_case, string_of};

verus! {

/// The image built for the first player.
pub const IMAGE_01_BUILD_NAME: &'static str = "battlefield:c1";
/// The image built for the second player.
pub const IMAGE_02_BUILD_NAME: &'static str = "battlefield:c2";
/// The container of the first player.
pub const PLAYER_01_ID_CONTAINER_NAME: &'static str = "usa";
/// The container of the second player.
pub const PLAYER_02_ID_CONTAINER_NAME: &'static str = "ussr";
/// The Docker network both containers join.
pub const DEFAULT_NETWORK_NAME: &'static str = "cold_war";
/// The port, with its protocol, that each container exposes.
pub const DEFAULT_REDJAIL_PORT_CONFIG: &'static str = "5000/tcp";
/// The host port on which the first player's container is reached.
pub const PLAYER_01_PORT: u16 = 50001;
/// The host port on which the second player's container is reached.
pub const PLAYER_02_PORT: u16 = 40001;


/// How one player's container is created: its name and image, the container
/// port it exposes, the host address and port that port is bound to, that
/// it runs privileged, and the network it joins.
pub struct ContainerSpec {
    pub name: String,
    pub image: String,
    pub exposed_port: String,
    pub host_ip: String,
    pub host_port: String,
    pub privileged: bool,
    pub network_mode: String,
}

impl ContainerSpec {
    /// The container `name`, from `image`, reached on the host at port
    /// `host_port`.
    pub open spec fn describes(&self, name: Seq<char>, image: Seq<char>, host_port: u16) -> bool {
        &&& self.name@ == name
        &&& self.image@ == image
        &&& self.exposed_port@ == DEFAULT_REDJAIL_PORT_CONFIG@
        &&& self.host_ip@ == "0.0.0.0"@
        &&& self.host_port@ == decimal(host_port as nat)
        &&& self.privileged
        &&& self.network_mode@ == DEFAULT_NETWORK_NAME@
    }
}

/// The container of one player: the exposed port bound on every host
/// address at `host_expose_port`, privileged, on the arena's network.
pub fn container_spec(container_name: &str, image_name: &str, host_expose_port: u16) -> (r:
    ContainerSpec)
    ensures
        r.describes(container_name@, image_name@, host_expose_port),
{
    ContainerSpec {
        name: string_of(container_name),
        image: string_of(image_name),
        exposed_port: string_of(DEFAULT_REDJAIL_PORT_CONFIG),
        host_ip: string_of("0.0.0.0"),
        host_port: decimal_string(host_expose_port),
        privileged: true,
        network_mode: string_of(DEFAULT_NETWORK_NAME),
    }
}

/// What building the arena takes: the images, built in order, then the
/// containers, created and started in order.
pub struct ArenaPlan {
    pub images: Vec<String>,
    pub containers: Vec<ContainerSpec>,
}

/// The arena: the first player's image, then the second's; the first
/// player's container on port `PLAYER_01_PORT`, then the second player's on
/// `PLAYER_02_PORT`.
pub fn create_arena() -> (r: ArenaPlan)
    ensures
        r.images@.len() == 2,
        r.images@[0]@ == IMAGE_01_BUILD_NAME@,
        r.images@[1]@ == IMAGE_02_BUILD_NAME@,
        r.containers@.len() == 2,
        r.containers@[0].describes(PLAYER_01_ID_CONTAINER_NAME@, IMAGE_01_BUILD_NAME@, PLAYER_01_PORT),
        r.containers@[1].describes(PLAYER_02_ID_CONTAINER_NAME@, IMAGE_02_BUILD_NAME@, PLAYER_02_PORT),
{
    let mut images: Vec<String> = Vec::new();
    images.push(string_of(IMAGE_01_BUILD_NAME));
    images.push(string_of(IMAGE_02_BUILD_NAME));
    let mut containers: Vec<ContainerSpec> = Vec::new();
    containers.push(container_spec(PLAYER_01_ID_CONTAINER_NAME, IMAGE_01_BUILD_NAME, PLAYER_01_PORT));
    containers.push(container_spec(PLAYER_02_ID_CONTAINER_NAME, IMAGE_02_BUILD_NAME, PLAYER_02_PORT));
    ArenaPlan { images, containers }
}

/// The name of the host's bridge interface for a Docker network: "br-"
/// followed by the first twelve bytes of the network's id.
pub fn bridge_interface_name(network_id: &str) -> (r: String)
    requires
        vstd::utf8::is_char_boundary(vstd::utf8::encode_utf8(network_id@), 12),
    ensures
        r@ == "br-"@ + vstd::utf8::decode_utf8(vstd::utf8::encode_utf8(network_id@).subrange(0, 12)),
{
    let (head, _) = network_id.split_at(12);
    proof {
        vstd::utf8::encode_utf8_decode_utf8(head@);
    }
    let mut r = string_of("br-");
    r.append(head);
    r
}

/// The host's address after a scan of its interfaces: each interface named
/// "eth0" (up to ASCII case), in order, puts its address in front.
pub open spec fn lan_ip_after(hostip: Seq<char>, interfaces: Seq<(String, String)>) -> Seq<char>
    decreases interfaces.len(),
{
    if interfaces.len() == 0 {
        hostip
    } else {
        let before = lan_ip_after(hostip, interfaces.drop_last());
        if eq_ignore_case(interfaces.last().0@, "eth0"@) {
            interfaces.last().1@ + before
        } else {
            before
        }
    }
}

/// Scanning one more interface: one whose name is not "eth0" up to ASCII
/// case leaves the address as it was; one whose name is puts its address in
/// front.
pub proof fn only_eth0_sets_the_address(
    hostip: Seq<char>,
    interfaces: Seq<(String, String)>,
    iface: (String, String),
)
    ensures
        !eq_ignore_case(iface.0@, "eth0"@) ==> lan_ip_after(hostip, interfaces.push(iface)) == lan_ip_after(
            hostip,
            interfaces,
        ),
        eq_ignore_case(iface.0@, "eth0"@) ==> lan_ip_after(hostip, interfaces.push(iface)) == iface.1@
            + lan_ip_after(hostip, interfaces),
{
    assert(interfaces.push(iface).drop_last() =~= interfaces);
}

/// Without an interface named "eth0" (up to ASCII case) the address is left
/// as it was.
pub proof fn no_eth0_keeps_the_address(hostip: Seq<char>, interfaces: Seq<(String, String)>)
    requires
        forall|i: int| 0 <= i < interfaces.len() ==> !eq_ignore_case(#[trigger] interfaces[i].0@, "eth0"@),
    ensures
        lan_ip_after(hostip, interfaces) == hostip,
    decreases interfaces.len(),
{
    if interfaces.len() > 0 {
        let rest = interfaces.drop_last();
        assert forall|i: int| 0 <= i < rest.len() implies !eq_ignore_case(#[trigger] rest[i].0@, "eth0"@) by {
            assert(rest[i] == interfaces[i]);
        }
        no_eth0_keeps_the_address(hostip, rest);
        assert(interfaces.last() == interfaces[interfaces.len() - 1]);
    }
}

/// Records the LAN address of the host from its interfaces, given as pairs
/// of name and address text: the address of every interface named "eth0"
/// (up to ASCII case) is inserted at the front of `hostip`.
pub fn set_lan_eth0_ip(hostip: &mut String, interfaces: &Vec<(String, String)>)
    ensures
        final(hostip)@ == lan_ip_after(old(hostip)@, interfaces@),
{
    let mut i: usize = 0;
    while i < interfaces.len()
        invariant
            i <= interfaces@.len(),
            hostip@ == lan_ip_after(old(hostip)@, interfaces@.subrange(0, i as int)),
        decreases interfaces@.len() - i,
    {
        proof {
            let pre = interfaces@.subrange(0, i + 1);
            assert(pre.drop_last() =~= interfaces@.subrange(0, i as int));
            assert(pre.last() == interfaces@[i as int]);
        }
        if eq_ignore_ascii_case(interfaces[i].0.as_str(), "eth0") {
            let mut front = string_of(interfaces[i].1.as_str());
            front.append(hostip.as_str());
            *hostip = front;
        }
        i = i + 1;
    }
    assert(interfaces@.subrange(0, interfaces@.len() as int) =~= interfaces@);
}

} // verus!
