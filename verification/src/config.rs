//! The configuration of the server and what is asked of it.
use crate::base64url::{
    base64url, base64url_decoded, decode_fixed, decoding_undoes_encoding, field_of, Field,
};
use crate::client::{Client, ClientModel, IdentityModel, ServerIdentity};
use crate::crypto::{ed25519_check_key, ed25519_is_key, ed25519_public};
use crate::error::Error;
use crate::gate::{client_models, gate_answer, validate_gate_token, ReplayCache, RequestModel};
use crate::ipv4::{
    address_of, count_addresses, dotted, dotted_is_injective, network_of, read_address, subnet_of,
    subnet_size,
};
use crate::session::SessionPolicy;
use crate::strings::{find_white_space, has_white_space};
use crate::table::Table;
use crate::wire::{append, be_value, get_u32, numbers_are_big_endian, text, text_of_ascii};
use vstd::arithmetic::power2::pow2;
use vstd::prelude::*;
use vstd::string::StringExecFns;
use vstd::utf8::encode_utf8;

verus! {

/// How many clients may be configured.
pub const MAX_CLIENTS: usize = 4096;

/// The network interface and the sockets of the helper that owns it.
#[derive(Clone)]
pub struct TunSettings {
    pub name: String,
    pub address: String,
    pub prefix_len: u8,
    pub mtu: u16,
    pub session_queue: usize,
    pub helper_socket: Option<String>,
    pub helper_client_socket: Option<String>,
}

/// The HTTP/3 listener.
#[derive(Clone)]
pub struct H3Config {
    pub listen: String,
    pub authority: String,
    pub path: String,
    pub certificate_pem: String,
    pub private_key_pem: String,
    pub decoy_root: String,
}

/// A configured client.
#[derive(Clone)]
pub struct ClientConfig {
    pub client_id_b64: String,
    pub client_public_key_b64: String,
    pub gate_key_b64: String,
    pub tunnel_ipv4: String,
    pub revoked: bool,
    pub session_lifetime_seconds: u32,
    pub bandwidth_bytes_per_second: u64,
    pub session_quota_bytes: u64,
}

/// The configuration of the server.
#[derive(Clone)]
pub struct Config {
    pub listen: String,
    pub authority: String,
    pub tunnel_path: String,
    pub server_signing_seed_b64: String,
    pub tun: TunSettings,
    pub clients: Vec<ClientConfig>,
    pub h3: Option<H3Config>,
}

/// Where the pages of the HTTP/3 listener lie if nothing else is said.
pub fn default_h3_decoy_root() -> (root: String)
    ensures
        root@ == "/var/www/rekaserdoba"@,
{
    String::from_str("/var/www/rekaserdoba")
}

/// How long a session lasts if nothing else is said, in seconds.
pub fn default_session_lifetime() -> (seconds: u32)
    ensures
        seconds == 3600,
{
    3600
}

/// How many bytes per second a session may carry if nothing else is said.
pub fn default_bandwidth() -> (bytes: u64)
    ensures
        bytes == 25 * 1024 * 1024,
{
    25 * 1024 * 1024
}

/// The bytes of a configured text.
pub open spec fn bytes_of(value: String) -> Seq<u8> {
    encode_utf8(value@)
}

/// A text that ends with a port, which is 443.
pub open spec fn names_port(value: Seq<u8>) -> bool {
    let port = text(":443");
    value.len() >= port.len() && value.subrange(value.len() - port.len(), value.len() as int) == port
}

/// A text that begins with a slash.
pub open spec fn is_absolute(value: Seq<u8>) -> bool {
    value.len() > 0 && value[0] == 0x2f
}

/// Checks that a text ends with the port.
pub fn ends_with_port(value: &[u8]) -> (ends: bool)
    ensures
        ends == names_port(value@),
{
    proof {
        reveal_strlit(":443");
        text_of_ascii(":443");
        assert(text(":443") =~= seq![0x3au8, 0x34u8, 0x34u8, 0x33u8]);
    }
    let n: usize = value.len();
    if n < 4 {
        return false;
    }
    let ghost tail = value@.subrange(n - 4, n as int);
    assert(tail[0] == value@[n - 4] && tail[1] == value@[n - 3] && tail[2] == value@[n - 2]
        && tail[3] == value@[n - 1]);
    let ends = value[n - 4] == 0x3a && value[n - 3] == 0x34 && value[n - 2] == 0x34 && value[n - 1]
        == 0x33;
    assert(ends ==> tail =~= text(":443"));
    ends
}

/// What is wrong with the settings of the interface.
pub open spec fn settings_problem(settings: TunSettings) -> Option<Error> {
    if bytes_of(settings.name).len() == 0 || bytes_of(settings.name).len() > 15 {
        Some(Error::InvalidTunName)
    } else if settings.mtu < 576 || settings.mtu > 9000 {
        Some(Error::InvalidTunMtu)
    } else if settings.session_queue < 8 || settings.session_queue > 4096 {
        Some(Error::InvalidSessionQueue)
    } else if address_of(bytes_of(settings.address)) is None {
        Some(Error::InvalidTunAddress)
    } else if settings.prefix_len < 1 || settings.prefix_len > 30 {
        Some(Error::InvalidTunPrefix)
    } else {
        match (settings.helper_socket, settings.helper_client_socket) {
            (Some(server), Some(client)) => if server@ == client@ {
                Some(Error::HelperSocketsEqual)
            } else {
                None
            },
            (Some(_), None) => Some(Error::HelperClientSocketMissing),
            (None, Some(_)) => Some(Error::HelperSocketMissing),
            (None, None) => None,
        }
    }
}

/// The outcome of a check.
pub open spec fn checked(problem: Option<Error>) -> Result<(), Error> {
    match problem {
        Some(error) => Err(error),
        None => Ok(()),
    }
}

/// Checks the settings of the interface.
pub fn validate_tun(settings: &TunSettings) -> (out: Result<(), Error>)
    ensures
        out == checked(settings_problem(*settings)),
{
    let name_length: usize = settings.name.as_str().as_bytes().len();
    if name_length == 0 || name_length > 15 {
        return Err(Error::InvalidTunName);
    }
    if settings.mtu < 576 || settings.mtu > 9000 {
        return Err(Error::InvalidTunMtu);
    }
    if settings.session_queue < 8 || settings.session_queue > 4096 {
        return Err(Error::InvalidSessionQueue);
    }
    if read_address(settings.address.as_str().as_bytes()).is_none() {
        return Err(Error::InvalidTunAddress);
    }
    if settings.prefix_len < 1 || settings.prefix_len > 30 {
        return Err(Error::InvalidTunPrefix);
    }
    match (&settings.helper_socket, &settings.helper_client_socket) {
        (Some(server), Some(client)) => {
            if *server == *client {
                Err(Error::HelperSocketsEqual)
            } else {
                Ok(())
            }
        },
        (Some(_), None) => Err(Error::HelperClientSocketMissing),
        (None, Some(_)) => Err(Error::HelperSocketMissing),
        (None, None) => Ok(()),
    }
}

/// What is wrong with the names of the HTTP/3 listener.
pub open spec fn h3_problem(h3: H3Config) -> Option<Error> {
    if !names_port(bytes_of(h3.authority)) || has_white_space(h3.authority@) {
        Some(Error::InvalidH3Authority)
    } else if !is_absolute(bytes_of(h3.path)) || bytes_of(h3.path).len() > 256 {
        Some(Error::InvalidH3Path)
    } else {
        None
    }
}

/// Checks the names of the HTTP/3 listener.
pub fn validate_h3(h3: &H3Config) -> (out: Result<(), Error>)
    ensures
        out == checked(h3_problem(*h3)),
{
    if !ends_with_port(h3.authority.as_str().as_bytes()) || find_white_space(
        h3.authority.as_str(),
    ) {
        return Err(Error::InvalidH3Authority);
    }
    let path = h3.path.as_str().as_bytes();
    if path.len() == 0 || path[0] != 0x2f || path.len() > 256 {
        return Err(Error::InvalidH3Path);
    }
    Ok(())
}

/// Checks how many clients are configured.
pub fn validate_client_count(config: &Config) -> (out: Result<(), Error>)
    ensures
        out == if config.clients@.len() > MAX_CLIENTS {
            Err::<(), Error>(Error::TooManyClients)
        } else {
            Ok(())
        },
{
    if config.clients.len() > MAX_CLIENTS {
        Err(Error::TooManyClients)
    } else {
        Ok(())
    }
}

/// The file mode of a private key lets the group write it, or lets others read, write
/// or run it.
pub open spec fn too_broad(mode: u32) -> bool {
    mode / 16 % 2 == 1 || mode % 8 != 0
}

/// Checks the file mode of the private key.
pub fn validate_key_mode(mode: u32) -> (out: Result<(), Error>)
    ensures
        out == if too_broad(mode) {
            Err::<(), Error>(Error::H3KeyPermissions)
        } else {
            Ok(())
        },
{
    if mode & 0x17 != 0 {
        assert(mode & 0x17 != 0 ==> mode / 16 % 2 == 1 || mode % 8 != 0) by (bit_vector);
        Err(Error::H3KeyPermissions)
    } else {
        assert(mode & 0x17 == 0 ==> mode / 16 % 2 == 0 && mode % 8 == 0) by (bit_vector);
        Ok(())
    }
}

/// An address that a client may have in the tunnel: it lies in the subnet, and is
/// neither the first nor the last of it, nor the server's.
pub open spec fn usable(server: Seq<u8>, prefix: u8, address: Seq<u8>) -> bool {
    let network = subnet_of(be_value(server), prefix);
    &&& subnet_of(be_value(address), prefix) == network
    &&& be_value(address) != network
    &&& be_value(address) != network + subnet_size(prefix) - 1
    &&& address != server
}

/// A configured client as the server will know it.
#[verifier::opaque]
pub open spec fn client_of(tun: TunSettings, id: Seq<u8>, item: ClientConfig) -> Result<
    ClientModel,
    Error,
> {
    let server = address_of(bytes_of(tun.address))->Some_0;
    match field_of(bytes_of(item.client_public_key_b64), 32, Field::ClientPublicKey) {
        Err(error) => Err(error),
        Ok(public_key) => if !ed25519_is_key(public_key) {
            Err(Error::InvalidClientPublicKey)
        } else {
            match field_of(bytes_of(item.gate_key_b64), 32, Field::GateKey) {
                Err(error) => Err(error),
                Ok(gate_key) => match address_of(bytes_of(item.tunnel_ipv4)) {
                    None => Err(Error::InvalidTunnelAddress),
                    Some(address) => if !usable(server, tun.prefix_len, address) {
                        Err(Error::TunnelAddressOutsideSubnet)
                    } else if !(60 <= item.session_lifetime_seconds <= 86400) {
                        Err(Error::InvalidSessionLifetime)
                    } else if !(1024 <= item.bandwidth_bytes_per_second <= 0x4000_0000) {
                        Err(Error::InvalidSessionBandwidth)
                    } else {
                        Ok(
                            (ClientModel {
                                id,
                                public_key,
                                gate_key,
                                tunnel_ipv4: address,
                                session_lifetime_seconds: item.session_lifetime_seconds,
                                bandwidth_bytes_per_second: item.bandwidth_bytes_per_second,
                                session_quota_bytes: item.session_quota_bytes,
                            }),
                        )
                    },
                },
            }
        },
    }
}

/// Reads a configured client.
fn read_client(
    server: [u8; 4],
    tun: &TunSettings,
    id: [u8; 16],
    item: &ClientConfig,
) -> (client: Result<Client, Error>)
    requires
        address_of(bytes_of(tun.address)) == Some(server@),
        tun.prefix_len <= 32,
    ensures
        match client_of(*tun, id@, *item) {
            Ok(model) => client is Ok && client->Ok_0@ == model,
            Err(error) => client is Err && client->Err_0 == error,
        },
{
    proof {
        reveal(client_of);
    }
    let public_key: [u8; 32] = match decode_fixed(
        item.client_public_key_b64.as_str(),
        Field::ClientPublicKey,
    ) {
        Ok(public_key) => public_key,
        Err(error) => {
            return Err(error);
        },
    };
    if !ed25519_check_key(&public_key) {
        return Err(Error::InvalidClientPublicKey);
    }
    let gate_key: [u8; 32] = match decode_fixed(item.gate_key_b64.as_str(), Field::GateKey) {
        Ok(gate_key) => gate_key,
        Err(error) => {
            return Err(error);
        },
    };
    let address: [u8; 4] = match read_address(item.tunnel_ipv4.as_str().as_bytes()) {
        Some(address) => address,
        None => {
            return Err(Error::InvalidTunnelAddress);
        },
    };
    let server_number: u32 = get_u32(&server, 0);
    let number: u32 = get_u32(&address, 0);
    proof {
        assert(server@.subrange(0, 4) =~= server@);
        assert(address@.subrange(0, 4) =~= address@);
    }
    let network: u32 = network_of(server_number, tun.prefix_len);
    let size: u64 = count_addresses(tun.prefix_len);
    if network_of(number, tun.prefix_len) != network || number == network || number as u64
        == network as u64 + size - 1 || same_address(&address, &server) {
        return Err(Error::TunnelAddressOutsideSubnet);
    }
    match SessionPolicy::new(
        item.session_lifetime_seconds,
        item.bandwidth_bytes_per_second,
        item.session_quota_bytes,
        0,
    ) {
        Ok(_) => Ok(
            Client {
                id,
                public_key,
                gate_key,
                tunnel_ipv4: address,
                session_lifetime_seconds: item.session_lifetime_seconds,
                bandwidth_bytes_per_second: item.bandwidth_bytes_per_second,
                session_quota_bytes: item.session_quota_bytes,
            },
        ),
        Err(error) => Err(error),
    }
}

/// Compares two addresses.
fn same_address(a: &[u8; 4], b: &[u8; 4]) -> (same: bool)
    ensures
        same == (a@ == b@),
{
    let same = a[0] == b[0] && a[1] == b[1] && a[2] == b[2] && a[3] == b[3];
    assert(same ==> a@ =~= b@);
    same
}

/// What is known of the clients once some of them were read.
#[verifier::ext_equal]
pub struct Roster {
    pub ids: Set<Seq<u8>>,
    pub addresses: Set<Seq<u8>>,
    pub clients: Map<Seq<u8>, ClientModel>,
}

/// The roster with one more client.
pub open spec fn enrolled(roster: Roster, tun: TunSettings, item: ClientConfig) -> Result<
    Roster,
    Error,
> {
    match field_of(bytes_of(item.client_id_b64), 16, Field::ClientId) {
        Err(error) => Err(error),
        Ok(id) => if roster.ids.contains(id) {
            Err(Error::DuplicateClientId)
        } else {
            match client_of(tun, id, item) {
                Err(error) => Err(error),
                Ok(client) => if item.revoked {
                    Ok((Roster { ids: roster.ids.insert(id), ..roster }))
                } else if roster.addresses.contains(client.tunnel_ipv4) {
                    Err(Error::DuplicateTunnelAddress)
                } else {
                    Ok(
                        (Roster {
                            ids: roster.ids.insert(id),
                            addresses: roster.addresses.insert(client.tunnel_ipv4),
                            clients: roster.clients.insert(id, client),
                        }),
                    )
                },
            }
        },
    }
}

/// The roster of a list of clients, or what is wrong with the first of them that is
/// refused.
pub open spec fn roster_of(tun: TunSettings, items: Seq<ClientConfig>) -> Result<Roster, Error>
    decreases items.len(),
{
    if items.len() == 0 {
        Ok((Roster { ids: Set::empty(), addresses: Set::empty(), clients: Map::empty() }))
    } else {
        match roster_of(tun, items.drop_last()) {
            Err(error) => Err(error),
            Ok(roster) => enrolled(roster, tun, items.last()),
        }
    }
}

/// A server as values.
#[verifier::ext_equal]
pub struct RuntimeModel {
    pub authority: Seq<char>,
    pub tunnel_path: Seq<char>,
    pub identity: IdentityModel,
    pub clients: Map<Seq<u8>, ClientModel>,
}

/// The server that a configuration describes, or what is wrong with it.
pub open spec fn runtime_of(config: Config) -> Result<RuntimeModel, Error> {
    let authority = bytes_of(config.authority);
    let path = bytes_of(config.tunnel_path);
    if settings_problem(config.tun) is Some {
        Err(settings_problem(config.tun)->Some_0)
    } else if !names_port(authority) || has_white_space(config.authority@) || authority.len()
        > 255 {
        Err(Error::InvalidAuthority)
    } else if !is_absolute(path) || path.len() > 256 {
        Err(Error::InvalidTunnelPath)
    } else {
        match field_of(bytes_of(config.server_signing_seed_b64), 32, Field::ServerSigningSeed) {
            Err(error) => Err(error),
            Ok(seed) => match roster_of(config.tun, config.clients@) {
                Err(error) => Err(error),
                Ok(roster) => Ok(
                    (RuntimeModel {
                        authority: config.authority@,
                        tunnel_path: config.tunnel_path@,
                        identity: IdentityModel::from_seed(seed),
                        clients: roster.clients,
                    }),
                ),
            },
        }
    }
}

/// A server: what it is called, its identity, and the clients that may connect.
pub struct Runtime {
    authority: String,
    tunnel_path: String,
    identity: ServerIdentity,
    clients: Table<Client>,
}

impl View for Runtime {
    type V = RuntimeModel;

    closed spec fn view(&self) -> RuntimeModel {
        RuntimeModel {
            authority: self.authority@,
            tunnel_path: self.tunnel_path@,
            identity: self.identity@,
            clients: client_models(self.clients@),
        }
    }
}

/// The clients of a roster while it is read.
struct Reading {
    ids: Table<bool>,
    addresses: Table<bool>,
    clients: Table<Client>,
}

impl Reading {
    spec fn wf(&self) -> bool {
        self.ids.wf() && self.addresses.wf() && self.clients.wf()
    }

    spec fn roster(&self) -> Roster {
        Roster {
            ids: self.ids@.dom(),
            addresses: self.addresses@.dom(),
            clients: client_models(self.clients@),
        }
    }

    /// Reads one more client.
    fn enroll(&mut self, server: [u8; 4], tun: &TunSettings, item: &ClientConfig) -> (out: Result<
        (),
        Error,
    >)
        requires
            old(self).wf(),
            address_of(bytes_of(tun.address)) == Some(server@),
            tun.prefix_len <= 32,
        ensures
            final(self).wf(),
            old(self).clients@.dom().finite() ==> {
                &&& final(self).clients@.dom().finite()
                &&& final(self).clients@.dom().len() <= old(self).clients@.dom().len() + 1
            },
            match enrolled(old(self).roster(), *tun, *item) {
                Ok(roster) => out is Ok && final(self).roster() == roster,
                Err(error) => out is Err && out->Err_0 == error,
            },
    {
        let id: [u8; 16] = match decode_fixed(item.client_id_b64.as_str(), Field::ClientId) {
            Ok(id) => id,
            Err(error) => {
                return Err(error);
            },
        };
        if self.ids.get(&id).is_some() {
            return Err(Error::DuplicateClientId);
        }
        let client = match read_client(server, tun, id, item) {
            Ok(client) => client,
            Err(error) => {
                return Err(error);
            },
        };
        let mut name: Vec<u8> = Vec::new();
        append(&mut name, &id);
        assert(name@ =~= id@);
        self.ids.insert(name, true);
        if item.revoked {
            assert(self.roster() =~= (Roster {
                ids: old(self).roster().ids.insert(id@),
                ..old(self).roster()
            }));
            return Ok(());
        }
        if self.addresses.get(&client.tunnel_ipv4).is_some() {
            return Err(Error::DuplicateTunnelAddress);
        }
        let mut address: Vec<u8> = Vec::new();
        append(&mut address, &client.tunnel_ipv4);
        assert(address@ =~= client.tunnel_ipv4@);
        self.addresses.insert(address, true);
        let mut key: Vec<u8> = Vec::new();
        append(&mut key, &id);
        assert(key@ =~= id@);
        self.clients.insert(key, client);
        proof {
            let before = old(self).roster();
            assert(self.roster().clients =~= before.clients.insert(id@, client@));
            assert(self.roster() =~= (Roster {
                ids: before.ids.insert(id@),
                addresses: before.addresses.insert(client@.tunnel_ipv4),
                clients: before.clients.insert(id@, client@),
            }));
        }
        Ok(())
    }
}

impl Runtime {
    /// No client is held twice, and they can be counted.
    pub closed spec fn wf(&self) -> bool {
        self.clients.wf() && self.clients@.dom().finite() && self.clients@.dom().len()
            <= usize::MAX
    }

    /// The server that a configuration describes.
    pub fn from_config(config: &Config) -> (runtime: Result<Self, Error>)
        ensures
            match runtime_of(*config) {
                Ok(model) => runtime is Ok && runtime->Ok_0@ == model && runtime->Ok_0.wf(),
                Err(error) => runtime is Err && runtime->Err_0 == error,
            },
    {
        match validate_tun(&config.tun) {
            Ok(_) => {},
            Err(error) => {
                return Err(error);
            },
        }
        let authority = config.authority.as_str().as_bytes();
        if !ends_with_port(authority) || find_white_space(config.authority.as_str())
            || authority.len() > 255 {
            return Err(Error::InvalidAuthority);
        }
        let path = config.tunnel_path.as_str().as_bytes();
        if path.len() == 0 || path[0] != 0x2f || path.len() > 256 {
            return Err(Error::InvalidTunnelPath);
        }
        let seed: [u8; 32] = match decode_fixed(
            config.server_signing_seed_b64.as_str(),
            Field::ServerSigningSeed,
        ) {
            Ok(seed) => seed,
            Err(error) => {
                return Err(error);
            },
        };
        let server: [u8; 4] = match read_address(config.tun.address.as_str().as_bytes()) {
            Some(server) => server,
            None => {
                return Err(Error::InvalidTunAddress);
            },
        };
        let mut reading = Reading {
            ids: Table::new(),
            addresses: Table::new(),
            clients: Table::new(),
        };
        let ghost items = config.clients@;
        let mut index: usize = 0;
        assert(config.clients.len() == items.len());
        proof {
            assert(reading.clients@.dom() =~= Set::empty());
            assert(items.take(0) =~= Seq::<ClientConfig>::empty());
            assert(reading.roster() =~= (Roster {
                ids: Set::empty(),
                addresses: Set::empty(),
                clients: Map::empty(),
            }));
        }
        while index < config.clients.len()
            invariant
                items == config.clients@,
                index <= items.len(),
                items.len() <= usize::MAX,
                reading.wf(),
                reading.clients@.dom().finite(),
                reading.clients@.dom().len() <= index,
                address_of(bytes_of(config.tun.address)) == Some(server@),
                config.tun.prefix_len <= 32,
                roster_of(config.tun, items.take(index as int)) == Ok::<Roster, Error>(
                    reading.roster(),
                ),
                settings_problem(config.tun) is None,
                names_port(bytes_of(config.authority)),
                !has_white_space(config.authority@),
                bytes_of(config.authority).len() <= 255,
                is_absolute(bytes_of(config.tunnel_path)),
                bytes_of(config.tunnel_path).len() <= 256,
                field_of(
                    bytes_of(config.server_signing_seed_b64),
                    32,
                    Field::ServerSigningSeed,
                ) == Ok::<Seq<u8>, Error>(seed@),
            decreases items.len() - index,
        {
            proof {
                let done = items.take(index + 1);
                assert(done.drop_last() =~= items.take(index as int));
                assert(done.last() == items[index as int]);
            }
            match reading.enroll(server, &config.tun, &config.clients[index]) {
                Ok(_) => {},
                Err(error) => {
                    proof {
                        lemma_refusal_stays(config.tun, items, (index + 1) as nat);
                    }
                    return Err(error);
                },
            }
            index = index + 1;
        }
        assert(items.take(index as int) =~= items);
        Ok(
            Runtime {
                authority: config.authority.clone(),
                tunnel_path: config.tunnel_path.clone(),
                identity: ServerIdentity::new(seed),
                clients: reading.clients,
            },
        )
    }

    /// How many clients may connect.
    pub fn client_count(&self) -> (count: usize)
        requires
            self.wf(),
        ensures
            self@.clients.dom().finite(),
            count == self@.clients.dom().len(),
    {
        assert(client_models(self.clients@).dom() =~= self.clients@.dom());
        self.clients.count_up_to(usize::MAX)
    }

    /// What the server is called.
    pub fn authority(&self) -> (authority: &str)
        ensures
            authority@ == self@.authority,
    {
        self.authority.as_str()
    }

    /// Where the tunnel is found.
    pub fn tunnel_path(&self) -> (path: &str)
        ensures
            path@ == self@.tunnel_path,
    {
        self.tunnel_path.as_str()
    }

    /// The server's identity.
    pub fn identity(&self) -> (identity: &ServerIdentity)
        ensures
            identity@ == self@.identity,
    {
        &self.identity
    }

    /// Checks the token of a request over WebSocket or HTTP/2.
    pub fn validate_gate(
        &self,
        replay: &mut ReplayCache,
        encoded: &str,
        method: &[u8],
        path: &str,
        unix_now: u64,
        now: u64,
    ) -> (client: Result<Client, Error>)
        requires
            self.wf(),
            old(replay).wf(),
        ensures
            final(replay).wf(),
            ({
                let (seen, answer) = gate_answer(
                    self@.clients,
                    old(replay)@,
                    RequestModel::plain(method@, encode_utf8(self@.authority), text(path)),
                    text(encoded),
                    unix_now,
                    now,
                );
                &&& final(replay)@ == seen
                &&& match answer {
                    Ok(model) => client is Ok && client->Ok_0@ == model,
                    Err(error) => client is Err && client->Err_0 == error,
                }
            }),
    {
        let none: [u8; 0] = [];
        assert(none@ =~= Seq::<u8>::empty());
        validate_gate_token(
            &self.clients,
            replay,
            encoded,
            "RekaSerdoba/1 gate-lab".as_bytes(),
            &none,
            method,
            self.authority.as_str(),
            path,
            unix_now,
            now,
        )
    }

    /// Checks the token of an HTTP/3 connection.
    pub fn validate_h3_gate(
        &self,
        replay: &mut ReplayCache,
        encoded: &str,
        exporter: &[u8; 32],
        authority: &str,
        path: &str,
        unix_now: u64,
        now: u64,
    ) -> (client: Result<Client, Error>)
        requires
            self.wf(),
            old(replay).wf(),
        ensures
            final(replay).wf(),
            ({
                let (seen, answer) = gate_answer(
                    self@.clients,
                    old(replay)@,
                    RequestModel::h3(exporter@, text(authority), text(path)),
                    text(encoded),
                    unix_now,
                    now,
                );
                &&& final(replay)@ == seen
                &&& match answer {
                    Ok(model) => client is Ok && client->Ok_0@ == model,
                    Err(error) => client is Err && client->Err_0 == error,
                }
            }),
    {
        validate_gate_token(
            &self.clients,
            replay,
            encoded,
            "RekaSerdoba/1 gate".as_bytes(),
            exporter,
            "CONNECT".as_bytes(),
            authority,
            path,
            unix_now,
            now,
        )
    }
}

/// A list is refused for the reason for which its front is refused.
proof fn lemma_refusal_stays(tun: TunSettings, items: Seq<ClientConfig>, n: nat)
    requires
        n <= items.len(),
        roster_of(tun, items.take(n as int)) is Err,
    ensures
        roster_of(tun, items) == roster_of(tun, items.take(n as int)),
    decreases items.len() - n,
{
    if n == items.len() {
        assert(items.take(n as int) =~= items);
    } else {
        let longer = items.take(n + 1int);
        assert(longer.drop_last() =~= items.take(n as int));
        lemma_refusal_stays(tun, items, n + 1);
    }
}

/// What holds of the roster of a list.
#[verifier::rlimit(40)]
#[verifier::spinoff_prover]
proof fn lemma_roster(tun: TunSettings, items: Seq<ClientConfig>)
    requires
        roster_of(tun, items) is Ok,
    ensures
        ({
            let roster = roster_of(tun, items)->Ok_0;
            &&& forall|id: Seq<u8>| #[trigger]
                roster.clients.contains_key(id) ==> roster.ids.contains(id)
                    && roster.addresses.contains(roster.clients[id].tunnel_ipv4)
                    && roster.clients[id].id == id && usable(
                    address_of(bytes_of(tun.address))->Some_0,
                    tun.prefix_len,
                    roster.clients[id].tunnel_ipv4,
                )
            &&& forall|a: Seq<u8>, b: Seq<u8>| #[trigger]
                roster.clients.contains_key(a) && #[trigger] roster.clients.contains_key(b) && a
                    != b ==> roster.clients[a].tunnel_ipv4 != roster.clients[b].tunnel_ipv4
            &&& forall|i: int|
                #![trigger items[i]]
                0 <= i < items.len() ==> {
                    let field = field_of(bytes_of(items[i].client_id_b64), 16, Field::ClientId);
                    &&& field is Ok
                    &&& roster.ids.contains(field->Ok_0)
                    &&& items[i].revoked ==> !roster.clients.contains_key(field->Ok_0)
                    &&& !items[i].revoked ==> roster.clients.contains_key(field->Ok_0) && Ok::<
                        ClientModel,
                        Error,
                    >(roster.clients[field->Ok_0]) == client_of(tun, field->Ok_0, items[i])
                }
        }),
    decreases items.len(),
{
    if items.len() > 0 {
        reveal(client_of);
        let front = items.drop_last();
        lemma_roster(tun, front);
        let before = roster_of(tun, front)->Ok_0;
        let after = roster_of(tun, items)->Ok_0;
        let last = items.last();
        let id = field_of(bytes_of(last.client_id_b64), 16, Field::ClientId)->Ok_0;
        assert(!before.ids.contains(id));
        assert(!before.clients.contains_key(id));
        assert forall|i: int| #![trigger items[i]] 0 <= i < items.len() implies {
            let field = field_of(bytes_of(items[i].client_id_b64), 16, Field::ClientId);
            &&& field is Ok
            &&& after.ids.contains(field->Ok_0)
            &&& items[i].revoked ==> !after.clients.contains_key(field->Ok_0)
            &&& !items[i].revoked ==> after.clients.contains_key(field->Ok_0) && Ok::<
                ClientModel,
                Error,
            >(after.clients[field->Ok_0]) == client_of(tun, field->Ok_0, items[i])
        } by {
            if i < front.len() {
                assert(front[i] == items[i]);
            }
        }
    }
}

/// The clients of a server have different addresses in the tunnel, and each address
/// lies in the subnet where a client may be.
pub proof fn clients_have_their_own_addresses(config: Config, a: Seq<u8>, b: Seq<u8>)
    requires
        runtime_of(config) is Ok,
        runtime_of(config)->Ok_0.clients.contains_key(a),
        runtime_of(config)->Ok_0.clients.contains_key(b),
    ensures
        ({
            let clients = runtime_of(config)->Ok_0.clients;
            &&& a != b ==> clients[a].tunnel_ipv4 != clients[b].tunnel_ipv4
            &&& clients[a].id == a
            &&& usable(
                address_of(bytes_of(config.tun.address))->Some_0,
                config.tun.prefix_len,
                clients[a].tunnel_ipv4,
            )
        }),
{
    lemma_roster(config.tun, config.clients@);
}

/// A client that a server knows was configured and is not revoked.
pub proof fn known_clients_are_configured(config: Config, id: Seq<u8>)
    requires
        runtime_of(config) is Ok,
        runtime_of(config)->Ok_0.clients.contains_key(id),
    ensures
        exists|i: int|
            #![trigger config.clients@[i]]
            0 <= i < config.clients@.len() && names_client(config.clients@[i], id),
{
    lemma_configured(config.tun, config.clients@, id);
}

/// A configured client with this id that is not revoked.
pub open spec fn names_client(item: ClientConfig, id: Seq<u8>) -> bool {
    !item.revoked && field_of(bytes_of(item.client_id_b64), 16, Field::ClientId) == Ok::<
        Seq<u8>,
        Error,
    >(id)
}

/// A client of a roster comes from its list.
proof fn lemma_configured(tun: TunSettings, items: Seq<ClientConfig>, id: Seq<u8>)
    requires
        roster_of(tun, items) is Ok,
        roster_of(tun, items)->Ok_0.clients.contains_key(id),
    ensures
        exists|i: int|
            #![trigger items[i]]
            0 <= i < items.len() && names_client(items[i], id),
    decreases items.len(),
{
    let front = items.drop_last();
    if roster_of(tun, front)->Ok_0.clients.contains_key(id) {
        lemma_configured(tun, front, id);
        let i = choose|i: int|
            #![trigger front[i]]
            0 <= i < front.len() && names_client(front[i], id);
        assert(names_client(items[i], id));
    } else {
        assert(names_client(items[items.len() - 1], id));
    }
}

/// Each configured client is known, with its values, unless it is revoked.
pub proof fn revoked_clients_are_not_known(config: Config, index: int)
    requires
        runtime_of(config) is Ok,
        0 <= index < config.clients@.len(),
    ensures
        ({
            let clients = runtime_of(config)->Ok_0.clients;
            let item = config.clients@[index];
            let field = field_of(bytes_of(item.client_id_b64), 16, Field::ClientId);
            &&& field is Ok
            &&& clients.contains_key(field->Ok_0) <==> !item.revoked
            &&& !item.revoked ==> Ok::<ClientModel, Error>(clients[field->Ok_0]) == client_of(
                config.tun,
                field->Ok_0,
                item,
            )
        }),
{
    lemma_roster(config.tun, config.clients@);
}

/// The settings of an interface are taken exactly where its name has 1 to 15 bytes, its MTU
/// and its queue are in their ranges, its address is in dotted decimal, its prefix is 1 to
/// 30, and the helper has two sockets of different names or none.
pub proof fn settings_are_judged_by_their_values(settings: TunSettings)
    ensures
        settings_problem(settings) is None <==> {
            &&& 1 <= bytes_of(settings.name).len() <= 15
            &&& 576 <= settings.mtu <= 9000
            &&& 8 <= settings.session_queue <= 4096
            &&& exists|octets: Seq<u8>|
                octets.len() == 4 && #[trigger] dotted(octets) == bytes_of(settings.address)
            &&& 1 <= settings.prefix_len <= 30
            &&& settings.helper_socket is Some <==> settings.helper_client_socket is Some
            &&& settings.helper_socket is Some ==> settings.helper_socket->Some_0@
                != settings.helper_client_socket->Some_0@
        },
{
}

/// A text that ends with a colon and 443.
proof fn lemma_port(value: Seq<u8>)
    ensures
        names_port(value) <==> value.len() >= 4 && value[value.len() - 4] == 0x3a
            && value[value.len() - 3] == 0x34 && value[value.len() - 2] == 0x34
            && value[value.len() - 1] == 0x33,
{
    reveal_strlit(":443");
    text_of_ascii(":443");
    assert(text(":443") =~= seq![0x3au8, 0x34u8, 0x34u8, 0x33u8]);
    if value.len() >= 4 {
        let tail = value.subrange(value.len() - 4, value.len() as int);
        assert(tail[0] == value[value.len() - 4] && tail[1] == value[value.len() - 3] && tail[2]
            == value[value.len() - 2] && tail[3] == value[value.len() - 1]);
        assert(names_port(value) <==> tail =~= text(":443"));
    }
}

/// The names of the HTTP/3 listener are taken exactly where the authority names port 443
/// and has no white space, and the path begins with a slash and has at most 256 bytes.
pub proof fn h3_names_are_judged_by_their_texts(h3: H3Config)
    ensures
        h3_problem(h3) is None <==> {
            let authority = bytes_of(h3.authority);
            let path = bytes_of(h3.path);
            &&& authority.len() >= 4
            &&& authority[authority.len() - 4] == 0x3a
            &&& authority[authority.len() - 3] == 0x34
            &&& authority[authority.len() - 2] == 0x34
            &&& authority[authority.len() - 1] == 0x33
            &&& !has_white_space(h3.authority@)
            &&& 1 <= path.len() <= 256
            &&& path[0] == 0x2f
        },
{
    lemma_port(bytes_of(h3.authority));
}

/// The file of a private key may be read and written by its owner and read or run by its
/// group; every other permission is too broad, and no other bit of the mode matters.
pub proof fn key_files_are_private(mode: u32)
    ensures
        too_broad(mode) <==> mode & 0x10 != 0 || mode & 0x04 != 0 || mode & 0x02 != 0 || mode
            & 0x01 != 0,
{
    assert(mode / 16 % 2 == 1 || mode % 8 != 0 <==> mode & 0x10 != 0 || mode & 0x04 != 0 || mode
        & 0x02 != 0 || mode & 0x01 != 0) by (bit_vector);
}

/// What a decoded field encodes to.
proof fn lemma_field(encoded: Seq<u8>, width: nat, what: Field, data: Seq<u8>)
    ensures
        field_of(encoded, width, what) == Ok::<Seq<u8>, Error>(data) <==> base64url(data)
            == encoded && data.len() == width,
{
    if base64url(data) == encoded {
        decoding_undoes_encoding(data);
    }
}

/// What an address is written as.
proof fn lemma_address(encoded: Seq<u8>, address: Seq<u8>)
    requires
        address.len() == 4,
    ensures
        address_of(encoded) == Some(address) <==> dotted(address) == encoded,
{
    if dotted(address) == encoded {
        let found = choose|found: Seq<u8>| found.len() == 4 && #[trigger] dotted(found) == encoded;
        dotted_is_injective(found, address);
    }
}

/// An address has four octets.
proof fn lemma_address_length(encoded: Seq<u8>)
    requires
        address_of(encoded) is Some,
    ensures
        address_of(encoded)->Some_0.len() == 4,
        dotted(address_of(encoded)->Some_0) == encoded,
{
}

/// Each client that the server knows has the values of its entry: the limits that stand
/// there, the address that is written there, and the keys that its texts encode.
pub proof fn clients_have_their_configured_values(config: Config, index: int)
    requires
        runtime_of(config) is Ok,
        0 <= index < config.clients@.len(),
        !config.clients@[index].revoked,
    ensures
        ({
            let item = config.clients@[index];
            let id = base64url_decoded(bytes_of(item.client_id_b64))->Some_0;
            let client = runtime_of(config)->Ok_0.clients[id];
            &&& id.len() == 16 && base64url(id) == bytes_of(item.client_id_b64)
            &&& runtime_of(config)->Ok_0.clients.contains_key(id)
            &&& client.id == id
            &&& client.public_key.len() == 32 && base64url(client.public_key) == bytes_of(
                item.client_public_key_b64,
            )
            &&& client.gate_key.len() == 32 && base64url(client.gate_key) == bytes_of(
                item.gate_key_b64,
            )
            &&& client.tunnel_ipv4.len() == 4 && dotted(client.tunnel_ipv4) == bytes_of(
                item.tunnel_ipv4,
            )
            &&& client.session_lifetime_seconds == item.session_lifetime_seconds
            &&& client.bandwidth_bytes_per_second == item.bandwidth_bytes_per_second
            &&& client.session_quota_bytes == item.session_quota_bytes
        }),
{
    reveal(client_of);
    lemma_roster(config.tun, config.clients@);
    let item = config.clients@[index];
    let id = field_of(bytes_of(item.client_id_b64), 16, Field::ClientId)->Ok_0;
    let client = runtime_of(config)->Ok_0.clients[id];
    lemma_field(bytes_of(item.client_id_b64), 16, Field::ClientId, id);
    lemma_field(
        bytes_of(item.client_public_key_b64),
        32,
        Field::ClientPublicKey,
        client.public_key,
    );
    lemma_field(bytes_of(item.gate_key_b64), 32, Field::GateKey, client.gate_key);
    lemma_address_length(bytes_of(item.tunnel_ipv4));
}

/// The place of an address in its subnet.
proof fn lemma_usable(server: Seq<u8>, prefix: u8, address: Seq<u8>)
    requires
        server.len() == 4,
        address.len() == 4,
        1 <= prefix <= 30,
    ensures
        usable(server, prefix, address) <==> {
            let size = pow2((32 - prefix) as nat);
            let own = address[0] * 0x100_0000 + address[1] * 0x1_0000 + address[2] * 256
                + address[3];
            let gateway = server[0] * 0x100_0000 + server[1] * 0x1_0000 + server[2] * 256
                + server[3];
            &&& own / size as int == gateway / size as int
            &&& own % size as int != 0
            &&& own % size as int != size - 1
            &&& own != gateway
        },
{
    let size = pow2((32 - prefix) as nat) as int;
    vstd::arithmetic::power2::lemma_pow2_pos((32 - prefix) as nat);
    numbers_are_big_endian(address);
    numbers_are_big_endian(server);
    let own = be_value(address) as int;
    let gateway = be_value(server) as int;
    vstd::arithmetic::div_mod::lemma_fundamental_div_mod(own, size);
    vstd::arithmetic::div_mod::lemma_fundamental_div_mod(gateway, size);
    assert(subnet_size(prefix) == size);
    assert(subnet_of(own as nat, prefix) == size * (own / size));
    assert(subnet_of(gateway as nat, prefix) == size * (gateway / size));
    assert(size * (own / size) == size * (gateway / size) <==> own / size == gateway / size)
        by (nonlinear_arith)
        requires
            size > 0,
    ;
    if own == gateway {
        assert(address[3] == server[3]);
        assert(address[2] == server[2]);
        assert(address[1] == server[1]);
        assert(address =~= server);
    }
}

/// What every entry of a list that is taken has: an id of its own, keys, an address where a
/// client may be, and limits in their ranges, also where it is revoked.
proof fn lemma_entries(tun: TunSettings, items: Seq<ClientConfig>)
    requires
        roster_of(tun, items) is Ok,
    ensures
        forall|i: int|
            #![trigger items[i]]
            0 <= i < items.len() ==> {
                let field = field_of(bytes_of(items[i].client_id_b64), 16, Field::ClientId);
                &&& field is Ok
                &&& roster_of(tun, items)->Ok_0.ids.contains(field->Ok_0)
                &&& client_of(tun, field->Ok_0, items[i]) is Ok
            },
        forall|i: int, j: int|
            #![trigger items[i], items[j]]
            0 <= i < j < items.len() ==> field_of(
                bytes_of(items[i].client_id_b64),
                16,
                Field::ClientId,
            )->Ok_0 != field_of(bytes_of(items[j].client_id_b64), 16, Field::ClientId)->Ok_0,
    decreases items.len(),
{
    if items.len() > 0 {
        let front = items.drop_last();
        lemma_entries(tun, front);
        assert forall|i: int| #![trigger items[i]] 0 <= i < items.len() implies {
            let field = field_of(bytes_of(items[i].client_id_b64), 16, Field::ClientId);
            &&& field is Ok
            &&& roster_of(tun, items)->Ok_0.ids.contains(field->Ok_0)
            &&& client_of(tun, field->Ok_0, items[i]) is Ok
        } by {
            if i < front.len() {
                assert(front[i] == items[i]);
            }
        }
        assert forall|i: int, j: int|
            #![trigger items[i], items[j]]
            0 <= i < j < items.len() implies field_of(
            bytes_of(items[i].client_id_b64),
            16,
            Field::ClientId,
        )->Ok_0 != field_of(bytes_of(items[j].client_id_b64), 16, Field::ClientId)->Ok_0 by {
            assert(front[i] == items[i]);
            if j < front.len() {
                assert(front[j] == items[j]);
            }
        }
    }
}

/// Nothing is taken that is out of range: in a configuration that is taken, the authority
/// names port 443, the path begins with a slash, the seed has 32 bytes, and each client,
/// revoked or not, has an id that no other has, a key, a gate key, limits in their ranges and
/// an address inside the subnet that is neither its first nor its last nor the server's.
pub proof fn taken_configuration_is_in_range(config: Config, index: int, other: int)
    requires
        runtime_of(config) is Ok,
        0 <= index < config.clients@.len(),
        0 <= other < config.clients@.len(),
    ensures
        ({
            let authority = bytes_of(config.authority);
            let path = bytes_of(config.tunnel_path);
            let runtime = runtime_of(config)->Ok_0;
            &&& 4 <= authority.len() <= 255
            &&& authority[authority.len() - 4] == 0x3a && authority[authority.len() - 3] == 0x34
            &&& authority[authority.len() - 2] == 0x34 && authority[authority.len() - 1] == 0x33
            &&& !has_white_space(config.authority@)
            &&& 1 <= path.len() <= 256 && path[0] == 0x2f
            &&& settings_problem(config.tun) is None
            &&& runtime.authority == config.authority@
            &&& runtime.tunnel_path == config.tunnel_path@
            &&& runtime.identity.seed.len() == 32
            &&& base64url(runtime.identity.seed) == bytes_of(config.server_signing_seed_b64)
            &&& runtime.identity.public_key == ed25519_public(runtime.identity.seed)
        }),
        ({
            let item = config.clients@[index];
            &&& 60 <= item.session_lifetime_seconds <= 86400
            &&& 1024 <= item.bandwidth_bytes_per_second <= 1024 * 1024 * 1024
            &&& exists|id: Seq<u8>| #[trigger]
                base64url(id) == bytes_of(item.client_id_b64) && id.len() == 16
            &&& exists|key: Seq<u8>| #[trigger]
                base64url(key) == bytes_of(item.client_public_key_b64) && key.len() == 32
                    && ed25519_is_key(key)
            &&& exists|key: Seq<u8>| #[trigger]
                base64url(key) == bytes_of(item.gate_key_b64) && key.len() == 32
            &&& index != other ==> bytes_of(item.client_id_b64) != bytes_of(
                config.clients@[other].client_id_b64,
            )
        }),
        ({
            let item = config.clients@[index];
            let server = address_of(bytes_of(config.tun.address))->Some_0;
            let address = address_of(bytes_of(item.tunnel_ipv4))->Some_0;
            let size = pow2((32 - config.tun.prefix_len) as nat);
            let own = address[0] * 0x100_0000 + address[1] * 0x1_0000 + address[2] * 256
                + address[3];
            let gateway = server[0] * 0x100_0000 + server[1] * 0x1_0000 + server[2] * 256
                + server[3];
            &&& dotted(server) == bytes_of(config.tun.address)
            &&& dotted(address) == bytes_of(item.tunnel_ipv4)
            &&& own / size as int == gateway / size as int
            &&& own % size as int != 0
            &&& own % size as int != size - 1
            &&& own != gateway
        }),
{
    lemma_port(bytes_of(config.authority));
    let seed = runtime_of(config)->Ok_0.identity.seed;
    lemma_field(bytes_of(config.server_signing_seed_b64), 32, Field::ServerSigningSeed, seed);
    lemma_entries(config.tun, config.clients@);
    let item = config.clients@[index];
    let id = field_of(bytes_of(item.client_id_b64), 16, Field::ClientId)->Ok_0;
    let client = client_of(config.tun, id, item)->Ok_0;
    reveal(client_of);
    lemma_field(bytes_of(item.client_id_b64), 16, Field::ClientId, id);
    lemma_field(
        bytes_of(item.client_public_key_b64),
        32,
        Field::ClientPublicKey,
        client.public_key,
    );
    lemma_field(bytes_of(item.gate_key_b64), 32, Field::GateKey, client.gate_key);
    assert(base64url(id) == bytes_of(item.client_id_b64));
    assert(base64url(client.public_key) == bytes_of(item.client_public_key_b64));
    assert(base64url(client.gate_key) == bytes_of(item.gate_key_b64));
    lemma_address_length(bytes_of(config.tun.address));
    lemma_address_length(bytes_of(item.tunnel_ipv4));
    lemma_usable(
        address_of(bytes_of(config.tun.address))->Some_0,
        config.tun.prefix_len,
        address_of(bytes_of(item.tunnel_ipv4))->Some_0,
    );
    if index < other {
        assert(config.clients@[other] == config.clients@[other]);
    } else if other < index {
        assert(config.clients@[other] == config.clients@[other]);
    }
}

/// What the entries of a configuration stand for: an id, a public key, a gate key and an
/// address for each.
pub struct Entries {
    pub ids: Seq<Seq<u8>>,
    pub public_keys: Seq<Seq<u8>>,
    pub gate_keys: Seq<Seq<u8>>,
    pub addresses: Seq<Seq<u8>>,
}

/// An entry is written in a configuration, with limits in their ranges and an address in
/// the subnet of the server's that is neither its first nor its last nor the server's.
#[verifier::opaque]
pub open spec fn entry_is_sound(
    entries: Entries,
    items: Seq<ClientConfig>,
    server: Seq<u8>,
    prefix: u8,
    i: int,
) -> bool {
    let size = pow2((32 - prefix) as nat);
    let address = entries.addresses[i];
    let own = address[0] * 0x100_0000 + address[1] * 0x1_0000 + address[2] * 256 + address[3];
    let gateway = server[0] * 0x100_0000 + server[1] * 0x1_0000 + server[2] * 256 + server[3];
    &&& base64url(entries.ids[i]) == bytes_of(items[i].client_id_b64)
    &&& entries.ids[i].len() == 16
    &&& base64url(entries.public_keys[i]) == bytes_of(items[i].client_public_key_b64)
    &&& entries.public_keys[i].len() == 32
    &&& ed25519_is_key(entries.public_keys[i])
    &&& base64url(entries.gate_keys[i]) == bytes_of(items[i].gate_key_b64)
    &&& entries.gate_keys[i].len() == 32
    &&& address.len() == 4
    &&& dotted(address) == bytes_of(items[i].tunnel_ipv4)
    &&& own / size as int == gateway / size as int
    &&& own % size as int != 0
    &&& own % size as int != size - 1
    &&& own != gateway
    &&& 60 <= items[i].session_lifetime_seconds <= 86400
    &&& 1024 <= items[i].bandwidth_bytes_per_second <= 1024 * 1024 * 1024
}

/// A sound entry gives a client.
proof fn lemma_entry(
    tun: TunSettings,
    items: Seq<ClientConfig>,
    entries: Entries,
    server: Seq<u8>,
    at: int,
)
    requires
        server.len() == 4,
        address_of(bytes_of(tun.address)) == Some(server),
        1 <= tun.prefix_len <= 30,
        entry_is_sound(entries, items, server, tun.prefix_len, at),
    ensures
        field_of(bytes_of(items[at].client_id_b64), 16, Field::ClientId) == Ok::<Seq<u8>, Error>(
            entries.ids[at],
        ),
        client_of(tun, entries.ids[at], items[at]) is Ok,
        client_of(tun, entries.ids[at], items[at])->Ok_0.tunnel_ipv4 == entries.addresses[at],
{
    reveal(entry_is_sound);
    reveal(client_of);
    let item = items[at];
    lemma_field(bytes_of(item.client_id_b64), 16, Field::ClientId, entries.ids[at]);
    lemma_field(
        bytes_of(item.client_public_key_b64),
        32,
        Field::ClientPublicKey,
        entries.public_keys[at],
    );
    lemma_field(bytes_of(item.gate_key_b64), 32, Field::GateKey, entries.gate_keys[at]);
    lemma_address(bytes_of(item.tunnel_ipv4), entries.addresses[at]);
    lemma_usable(server, tun.prefix_len, entries.addresses[at]);
}

/// A list whose entries are sound and whose ids and addresses differ is taken.
#[verifier::spinoff_prover]
proof fn lemma_list_is_taken(
    tun: TunSettings,
    items: Seq<ClientConfig>,
    entries: Entries,
    server: Seq<u8>,
    count: nat,
)
    requires
        server.len() == 4,
        address_of(bytes_of(tun.address)) == Some(server),
        1 <= tun.prefix_len <= 30,
        count <= items.len(),
        forall|i: int|
            0 <= i < items.len() ==> #[trigger] entry_is_sound(
                entries,
                items,
                server,
                tun.prefix_len,
                i,
            ),
        forall|i: int, j: int|
            0 <= i < j < items.len() ==> #[trigger] entries.ids[i] != #[trigger] entries.ids[j],
        forall|i: int, j: int|
            0 <= i < j < items.len() && !items[i].revoked && !items[j].revoked
                ==> #[trigger] entries.addresses[i] != #[trigger] entries.addresses[j],
    ensures
        roster_of(tun, items.take(count as int)) is Ok,
        ({
            let roster = roster_of(tun, items.take(count as int))->Ok_0;
            &&& forall|id: Seq<u8>| #[trigger]
                roster.ids.contains(id) ==> exists|i: int|
                    0 <= i < count && #[trigger] entries.ids[i] == id
            &&& forall|address: Seq<u8>| #[trigger]
                roster.addresses.contains(address) ==> exists|i: int|
                    0 <= i < count && !items[i].revoked && #[trigger] entries.addresses[i]
                        == address
        }),
    decreases count,
{
    if count > 0 {
        let done = items.take(count as int);
        let front = items.take(count - 1);
        let at = count - 1;
        lemma_list_is_taken(tun, items, entries, server, at as nat);
        assert(done.drop_last() =~= front);
        assert(done.last() == items[at]);
        let item = items[at];
        let before = roster_of(tun, front)->Ok_0;
        let id = entries.ids[at];
        lemma_entry(tun, items, entries, server, at);
        assert(roster_of(tun, done) == enrolled(before, tun, item));
        if before.ids.contains(id) {
            let i = choose|i: int| 0 <= i < at && #[trigger] entries.ids[i] == id;
            assert(entries.ids[i] != entries.ids[at]);
        }
        if !item.revoked && before.addresses.contains(entries.addresses[at]) {
            let i = choose|i: int|
                0 <= i < at && !items[i].revoked && #[trigger] entries.addresses[i]
                    == entries.addresses[at];
            assert(entries.addresses[i] != entries.addresses[at]);
        }
        let roster = roster_of(tun, done)->Ok_0;
        assert forall|other: Seq<u8>| #[trigger] roster.ids.contains(other) implies exists|i: int|
            0 <= i < count && #[trigger] entries.ids[i] == other by {
            if other == id {
                assert(entries.ids[at] == other);
            } else {
                assert(before.ids.contains(other));
            }
        }
        assert forall|address: Seq<u8>| #[trigger]
            roster.addresses.contains(address) implies exists|i: int|
            0 <= i < count && !items[i].revoked && #[trigger] entries.addresses[i]
                == address by {
            if !before.addresses.contains(address) {
                assert(entries.addresses[at] == address);
            }
        }
    }
}

/// A sound configuration is taken, and each of its clients that is not revoked is known: it
/// is enough that the settings are taken, the names and the seed have their forms, the
/// entries are sound, no two of them share an id, and no two that are not revoked share an
/// address.
pub proof fn sound_configuration_is_taken(
    config: Config,
    seed: Seq<u8>,
    server: Seq<u8>,
    entries: Entries,
    index: int,
)
    requires
        settings_problem(config.tun) is None,
        ({
            let authority = bytes_of(config.authority);
            let path = bytes_of(config.tunnel_path);
            &&& 4 <= authority.len() <= 255
            &&& authority[authority.len() - 4] == 0x3a && authority[authority.len() - 3] == 0x34
            &&& authority[authority.len() - 2] == 0x34 && authority[authority.len() - 1] == 0x33
            &&& !has_white_space(config.authority@)
            &&& 1 <= path.len() <= 256 && path[0] == 0x2f
        }),
        seed.len() == 32,
        base64url(seed) == bytes_of(config.server_signing_seed_b64),
        server.len() == 4,
        dotted(server) == bytes_of(config.tun.address),
        forall|i: int|
            0 <= i < config.clients@.len() ==> #[trigger] entry_is_sound(
                entries,
                config.clients@,
                server,
                config.tun.prefix_len,
                i,
            ),
        forall|i: int, j: int|
            0 <= i < j < config.clients@.len() ==> #[trigger] entries.ids[i]
                != #[trigger] entries.ids[j],
        forall|i: int, j: int|
            0 <= i < j < config.clients@.len() && !config.clients@[i].revoked
                && !config.clients@[j].revoked ==> #[trigger] entries.addresses[i]
                != #[trigger] entries.addresses[j],
    ensures
        runtime_of(config) is Ok,
        runtime_of(config)->Ok_0.identity.seed == seed,
        0 <= index < config.clients@.len() ==> runtime_of(config)->Ok_0.clients.contains_key(
            entries.ids[index],
        ) == !config.clients@[index].revoked,
{
    lemma_port(bytes_of(config.authority));
    lemma_field(bytes_of(config.server_signing_seed_b64), 32, Field::ServerSigningSeed, seed);
    lemma_address(bytes_of(config.tun.address), server);
    lemma_list_is_taken(config.tun, config.clients@, entries, server, config.clients@.len());
    assert(config.clients@.take(config.clients@.len() as int) =~= config.clients@);
    if 0 <= index < config.clients@.len() {
        revoked_clients_are_not_known(config, index);
        lemma_entry(config.tun, config.clients@, entries, server, index);
    }
}

/// The checks of a configuration say what is judged of it: at most 4096 clients, the names of
/// the HTTP/3 listener, the mode of its key, and the whole of it. What was taken is what the
/// server knows of itself.
pub proof fn configuration_is_checked(
    config: &Config,
    count: Result<(), Error>,
    h3: &H3Config,
    names: Result<(), Error>,
    mode: u32,
    key: Result<(), Error>,
    runtime: Result<Runtime, Error>,
)
    requires
        call_ensures(validate_client_count, (config,), count),
        call_ensures(validate_h3, (h3,), names),
        call_ensures(validate_key_mode, (mode,), key),
        call_ensures(Runtime::from_config, (config,), runtime),
    ensures
        count is Ok <==> config.clients@.len() <= 4096,
        names is Ok <==> h3_problem(*h3) is None,
        key is Ok <==> !too_broad(mode),
        runtime is Ok <==> runtime_of(*config) is Ok,
        runtime is Ok ==> runtime->Ok_0.wf() && runtime->Ok_0@ == runtime_of(*config)->Ok_0,
        runtime is Err ==> runtime->Err_0 == runtime_of(*config)->Err_0,
        forall|own: &Runtime, authority: &str| #[trigger]
            call_ensures(Runtime::authority, (own,), authority) ==> authority@ == own@.authority,
        forall|own: &Runtime, path: &str| #[trigger]
            call_ensures(Runtime::tunnel_path, (own,), path) ==> path@ == own@.tunnel_path,
        forall|own: &Runtime, identity: &ServerIdentity| #[trigger]
            call_ensures(Runtime::identity, (own,), identity) ==> identity@ == own@.identity,
        forall|own: &Runtime, number: usize| #[trigger]
            call_ensures(Runtime::client_count, (own,), number) ==> number
                == own@.clients.dom().len(),
{
}

/// What is not said in a configuration: sessions last an hour, and carry 25 MiB a second.
pub proof fn defaults_are_usable(seconds: u32, bytes: u64)
    requires
        call_ensures(default_session_lifetime, (), seconds),
        call_ensures(default_bandwidth, (), bytes),
    ensures
        seconds == 60 * 60,
        bytes == 25 * 1024 * 1024,
        60 <= seconds <= 86400,
        1024 <= bytes <= 0x4000_0000,
{
}

} // verus!
