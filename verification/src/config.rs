//! The declarative configuration: proxies, containers, health checks, and
//! the expansion of a configuration file into per-replica container
//! entries.
//!
//! Reading and deserialising the file happens outside; this module works
//! on the already-parsed values.
use vstd::prelude::*;
use crate::text::clone_string_vec;

verus! {

/// A named health check: its kind, probe URL template, and timeout.
#[derive(Debug)]
pub struct ConfigFileHealthCheck {
    pub name: String,
    pub check: String,
    pub url: String,
    pub timeout_ms: u32,
}

/// The mathematical model of a `ConfigFileHealthCheck`.
pub struct ConfigFileHealthCheckView {
    pub name: Seq<char>,
    pub check: Seq<char>,
    pub url: Seq<char>,
    pub timeout_ms: int,
}

impl View for ConfigFileHealthCheck {
    type V = ConfigFileHealthCheckView;

    open spec fn view(&self) -> ConfigFileHealthCheckView {
        ConfigFileHealthCheckView {
            name: self.name@,
            check: self.check@,
            url: self.url@,
            timeout_ms: self.timeout_ms as int,
        }
    }
}

impl Clone for ConfigFileHealthCheck {
    fn clone(&self) -> (r: Self)
        ensures
            r@ == self@,
    {
        Self {
            name: self.name.clone(),
            check: self.check.clone(),
            url: self.url.clone(),
            timeout_ms: self.timeout_ms,
        }
    }
}

/// A named proxy: the TCP address its instance listens on.
#[derive(Debug)]
pub struct ConfigFileProxy {
    pub name: String,
    pub listen: String,
}

/// The mathematical model of a `ConfigFileProxy`.
pub struct ConfigFileProxyView {
    pub name: Seq<char>,
    pub listen: Seq<char>,
}

impl View for ConfigFileProxy {
    type V = ConfigFileProxyView;

    open spec fn view(&self) -> ConfigFileProxyView {
        ConfigFileProxyView { name: self.name@, listen: self.listen@ }
    }
}

impl Clone for ConfigFileProxy {
    fn clone(&self) -> (r: Self)
        ensures
            r@ == self@,
    {
        Self { name: self.name.clone(), listen: self.listen.clone() }
    }
}

/// A declared container as the file states it: with a replica count.
#[derive(Debug)]
pub struct ConfigFileContainer {
    pub name: String,
    pub image: String,
    pub replicas: u32,
    pub container_port: u32,
    pub health_checks: Vec<String>,
    pub proxies: Vec<String>,
}

/// The mathematical model of a `ConfigFileContainer`.
pub struct ConfigFileContainerView {
    pub name: Seq<char>,
    pub image: Seq<char>,
    pub replicas: int,
    pub container_port: int,
    pub health_checks: Seq<Seq<char>>,
    pub proxies: Seq<Seq<char>>,
}

impl View for ConfigFileContainer {
    type V = ConfigFileContainerView;

    open spec fn view(&self) -> ConfigFileContainerView {
        ConfigFileContainerView {
            name: self.name@,
            image: self.image@,
            replicas: self.replicas as int,
            container_port: self.container_port as int,
            health_checks: self.health_checks@.map_values(|s: String| s@),
            proxies: self.proxies@.map_values(|s: String| s@),
        }
    }
}

/// The declarative configuration as the file states it.
#[derive(Debug)]
pub struct ConfigFile {
    pub proxy: Vec<ConfigFileProxy>,
    pub container: Vec<ConfigFileContainer>,
    pub health_check: Vec<ConfigFileHealthCheck>,
}

/// One declared container replica: a `ConfigFileContainer` entry
/// specialised to one replica index.
#[derive(Debug)]
pub struct ConfigContainer {
    pub name: String,
    pub image: String,
    pub replica_id: u32,
    pub container_port: u32,
    pub health_checks: Vec<String>,
    pub proxies: Vec<String>,
}

/// The mathematical model of a `ConfigContainer`.
pub struct ConfigContainerView {
    pub name: Seq<char>,
    pub image: Seq<char>,
    pub replica_id: int,
    pub container_port: int,
    pub health_checks: Seq<Seq<char>>,
    pub proxies: Seq<Seq<char>>,
}

impl View for ConfigContainer {
    type V = ConfigContainerView;

    open spec fn view(&self) -> ConfigContainerView {
        ConfigContainerView {
            name: self.name@,
            image: self.image@,
            replica_id: self.replica_id as int,
            container_port: self.container_port as int,
            health_checks: self.health_checks@.map_values(|s: String| s@),
            proxies: self.proxies@.map_values(|s: String| s@),
        }
    }
}

impl Clone for ConfigContainer {
    fn clone(&self) -> (r: Self)
        ensures
            r@ == self@,
    {
        Self {
            name: self.name.clone(),
            image: self.image.clone(),
            replica_id: self.replica_id,
            container_port: self.container_port,
            health_checks: clone_string_vec(&self.health_checks),
            proxies: clone_string_vec(&self.proxies),
        }
    }
}

/// The configuration with containers expanded to one entry per replica.
#[derive(Debug)]
pub struct Config {
    pub proxy: Vec<ConfigFileProxy>,
    pub container: Vec<ConfigContainer>,
    pub health_check: Vec<ConfigFileHealthCheck>,
}

/// The mathematical model of a `Config`.
pub struct ConfigView {
    pub proxy: Seq<ConfigFileProxyView>,
    pub container: Seq<ConfigContainerView>,
    pub health_check: Seq<ConfigFileHealthCheckView>,
}

impl View for Config {
    type V = ConfigView;

    open spec fn view(&self) -> ConfigView {
        ConfigView {
            proxy: self.proxy@.map_values(|p: ConfigFileProxy| p@),
            container: self.container@.map_values(|c: ConfigContainer| c@),
            health_check: self.health_check@.map_values(|h: ConfigFileHealthCheck| h@),
        }
    }
}

impl Clone for Config {
    fn clone(&self) -> (r: Self)
        ensures
            r@ == self@,
    {
        let r = Self {
            proxy: clone_proxy_vec(&self.proxy),
            container: clone_container_config_vec(&self.container),
            health_check: clone_health_check_vec(&self.health_check),
        };
        r
    }
}

/// A copy of a proxy vector, modelled by the same sequence.
fn clone_proxy_vec(v: &Vec<ConfigFileProxy>) -> (r: Vec<ConfigFileProxy>)
    ensures
        r@.map_values(|p: ConfigFileProxy| p@) == v@.map_values(|p: ConfigFileProxy| p@),
{
    let mut r: Vec<ConfigFileProxy> = Vec::new();
    let mut i: usize = 0;
    while i < v.len()
        invariant
            0 <= i <= v@.len(),
            r@.map_values(|p: ConfigFileProxy| p@) =~= v@.map_values(|p: ConfigFileProxy| p@).take(
                i as int,
            ),
        decreases v@.len() - i,
    {
        let x = v[i].clone();
        proof {
            crate::seqs::lemma_map_values_push(r@, x, |p: ConfigFileProxy| p@);
        }
        r.push(x);
        i = i + 1;
    }
    proof {
        assert(r@.map_values(|p: ConfigFileProxy| p@) =~= v@.map_values(|p: ConfigFileProxy| p@));
    }
    r
}

/// A copy of a health-check vector, modelled by the same sequence.
fn clone_health_check_vec(v: &Vec<ConfigFileHealthCheck>) -> (r: Vec<ConfigFileHealthCheck>)
    ensures
        r@.map_values(|h: ConfigFileHealthCheck| h@) == v@.map_values(
            |h: ConfigFileHealthCheck| h@,
        ),
{
    let mut r: Vec<ConfigFileHealthCheck> = Vec::new();
    let mut i: usize = 0;
    while i < v.len()
        invariant
            0 <= i <= v@.len(),
            r@.map_values(|h: ConfigFileHealthCheck| h@) =~= v@.map_values(
                |h: ConfigFileHealthCheck| h@,
            ).take(i as int),
        decreases v@.len() - i,
    {
        let x = v[i].clone();
        proof {
            crate::seqs::lemma_map_values_push(r@, x, |h: ConfigFileHealthCheck| h@);
        }
        r.push(x);
        i = i + 1;
    }
    proof {
        assert(r@.map_values(|h: ConfigFileHealthCheck| h@) =~= v@.map_values(
            |h: ConfigFileHealthCheck| h@,
        ));
    }
    r
}

/// A copy of a container-replica vector, modelled by the same sequence.
fn clone_container_config_vec(v: &Vec<ConfigContainer>) -> (r: Vec<ConfigContainer>)
    ensures
        r@.map_values(|c: ConfigContainer| c@) == v@.map_values(|c: ConfigContainer| c@),
{
    let mut r: Vec<ConfigContainer> = Vec::new();
    let mut i: usize = 0;
    while i < v.len()
        invariant
            0 <= i <= v@.len(),
            r@.map_values(|c: ConfigContainer| c@) =~= v@.map_values(|c: ConfigContainer| c@).take(
                i as int,
            ),
        decreases v@.len() - i,
    {
        let x = v[i].clone();
        proof {
            crate::seqs::lemma_map_values_push(r@, x, |c: ConfigContainer| c@);
        }
        r.push(x);
        i = i + 1;
    }
    proof {
        assert(r@.map_values(|c: ConfigContainer| c@) =~= v@.map_values(|c: ConfigContainer| c@));
    }
    r
}

/// The per-replica entries one file entry expands to: replica indices `0`
/// up to `replicas`, each carrying the entry's declared attributes.
pub open spec fn spec_replicas(c: ConfigFileContainerView) -> Seq<ConfigContainerView> {
    Seq::new(
        (if c.replicas >= 0 {
            c.replicas
        } else {
            0
        }) as nat,
        |i: int|
            ConfigContainerView {
                name: c.name,
                image: c.image,
                replica_id: i,
                container_port: c.container_port,
                health_checks: c.health_checks,
                proxies: c.proxies,
            },
    )
}

/// The expansion of a file's container list: each entry's replicas, in
/// file order.
pub open spec fn spec_expand(s: Seq<ConfigFileContainerView>) -> Seq<ConfigContainerView>
    decreases s.len(),
{
    if s.len() == 0 {
        Seq::empty()
    } else {
        spec_replicas(s[0]) + spec_expand(s.drop_first())
    }
}

impl Config {
    /// Expand a parsed configuration file: proxies and health checks are
    /// taken as they stand, and each container entry becomes one entry per
    /// replica, with replica indices counting up from zero.
    pub fn from_config_file(config_file: ConfigFile) -> (r: Config)
        ensures
            r@.proxy == config_file.proxy@.map_values(|p: ConfigFileProxy| p@),
            r@.health_check == config_file.health_check@.map_values(
                |h: ConfigFileHealthCheck| h@,
            ),
            r@.container == spec_expand(
                config_file.container@.map_values(|c: ConfigFileContainer| c@),
            ),
    {
        let ghost files = config_file.container@.map_values(|c: ConfigFileContainer| c@);
        let mut buffer: Vec<ConfigContainer> = Vec::new();
        let mut i: usize = 0;
        proof {
            assert(files.skip(0) =~= files);
        }
        while i < config_file.container.len()
            invariant
                0 <= i <= config_file.container@.len(),
                files == config_file.container@.map_values(|c: ConfigFileContainer| c@),
                spec_expand(files) =~= buffer@.map_values(|c: ConfigContainer| c@) + spec_expand(
                    files.skip(i as int),
                ),
            decreases config_file.container@.len() - i,
        {
            let file_container = &config_file.container[i];
            proof {
                crate::seqs::lemma_skip_drop_first(files, i as int);
                assert(files[i as int] == file_container@);
            }
            let replicas = file_container.replicas;
            let ghost mid = buffer@.map_values(|c: ConfigContainer| c@);
            let mut replica_id: u32 = 0;
            while replica_id < replicas
                invariant
                    0 <= replica_id <= replicas,
                    replicas == file_container.replicas,
                    file_container == config_file.container@[i as int],
                    0 <= i < config_file.container@.len(),
                    buffer@.map_values(|c: ConfigContainer| c@) =~= mid + spec_replicas(
                        file_container@,
                    ).take(replica_id as int),
                decreases replicas - replica_id,
            {
                let entry = ConfigContainer {
                    replica_id,
                    proxies: clone_string_vec(&file_container.proxies),
                    name: file_container.name.clone(),
                    image: file_container.image.clone(),
                    health_checks: clone_string_vec(&file_container.health_checks),
                    container_port: file_container.container_port,
                };
                proof {
                    assert(entry@ == spec_replicas(file_container@)[replica_id as int]);
                }
                proof {
                    crate::seqs::lemma_map_values_push(buffer@, entry, |c: ConfigContainer| c@);
                }
                buffer.push(entry);
                proof {
                    assert(buffer@.map_values(|c: ConfigContainer| c@) =~= mid + spec_replicas(
                        file_container@,
                    ).take(replica_id as int + 1));
                }
                replica_id = replica_id + 1;
            }
            proof {
                assert(spec_replicas(file_container@).take(replica_id as int) =~= spec_replicas(
                    file_container@,
                ));
                assert(buffer@.map_values(|c: ConfigContainer| c@) =~= mid + spec_replicas(
                    files[i as int],
                ));
                assert(spec_expand(files.skip(i as int)) == spec_replicas(files[i as int])
                    + spec_expand(files.skip(i as int + 1)));
                assert((mid + spec_replicas(files[i as int])) + spec_expand(
                    files.skip(i as int + 1),
                ) =~= mid + (spec_replicas(files[i as int]) + spec_expand(files.skip(i as int + 1))));
            }
            i = i + 1;
        }
        proof {
            assert(files.skip(i as int).len() == 0);
            assert(buffer@.map_values(|c: ConfigContainer| c@) + spec_expand(files.skip(i as int))
                =~= buffer@.map_values(|c: ConfigContainer| c@));
        }
        Config {
            proxy: config_file.proxy,
            health_check: config_file.health_check,
            container: buffer,
        }
    }
}

} // verus!
