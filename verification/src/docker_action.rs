//! The labels a start action stamps onto the container it creates.
//!
//! Everything the scanner later needs to rebuild a world entry is encoded
//! in labels, so no private database is needed: the fixed ownership
//! label, and one label per declared attribute.  Creating and starting
//! the container, and marking a stopped container for deletion in the
//! shared store, happen outside.
use vstd::prelude::*;
use crate::alist::lemma_alist_lookup_at;
use crate::docker_world::{spec_build_container, spec_owned, RuntimeContainer};
use crate::text::{join_strings, lemma_dec_val, lemma_split_join, spec_dec, spec_join, u32_to_dec};
use crate::world::{WorldContainer, WorldContainerView};

verus! {

/// The labels to stamp onto a container created for `container`: the
/// ownership mark and the declared attributes, lists joined with commas
/// and numbers written in decimal.
pub fn container_start_labels(container: &WorldContainer) -> (r: Vec<(String, String)>)
    ensures
        r@.len() == 7,
        r@[0].0@ == "easyharun"@ && r@[0].1@ == "1.0.0"@,
        r@[1].0@ == "easyharun_name"@ && r@[1].1@ == container@.name,
        r@[2].0@ == "easyharun_image"@ && r@[2].1@ == container@.image,
        r@[3].0@ == "easyharun_replica_id"@ && r@[3].1@ == spec_dec(container@.replica_id),
        r@[4].0@ == "easyharun_container_port"@ && r@[4].1@ == spec_dec(container@.container_port),
        r@[5].0@ == "easyharun_health_checks"@ && r@[5].1@ == spec_join(
            container@.health_checks,
            ","@,
        ),
        r@[6].0@ == "easyharun_proxies"@ && r@[6].1@ == spec_join(container@.proxies, ","@),
{
    let mut buf: Vec<(String, String)> = Vec::new();
    buf.push((String::from_str("easyharun"), String::from_str("1.0.0")));
    buf.push((String::from_str("easyharun_name"), container.name.clone()));
    buf.push((String::from_str("easyharun_image"), container.image.clone()));
    buf.push((String::from_str("easyharun_replica_id"), u32_to_dec(container.replica_id)));
    buf.push((String::from_str("easyharun_container_port"), u32_to_dec(container.container_port)));
    buf.push(
        (String::from_str("easyharun_health_checks"), join_strings(&container.health_checks, ",")),
    );
    buf.push((String::from_str("easyharun_proxies"), join_strings(&container.proxies, ",")));
    buf
}

/// What a start action writes into labels, a later runtime scan reads
/// back: a listed container carrying exactly the labels written for `w`,
/// a runtime id, and a published host port is owned here and builds back
/// into a world entry holding `w`'s declared attributes, the runtime id,
/// and the observed port.  This is what lets every tick reconstruct all
/// state from the runtime alone, with no private database.  The declared
/// name lists must be nonempty and free of commas, since the labels join
/// them with commas.
pub proof fn lemma_scan_reads_start_labels_back(
    rc: RuntimeContainer,
    w: WorldContainerView,
    id: Seq<char>,
    port: int,
)
    requires
        rc.id is Some && rc.id.unwrap()@ == id,
        rc.public_ports is Some,
        rc.public_ports.unwrap()@.len() > 0,
        rc.public_ports.unwrap()@[0] is Some,
        rc.public_ports.unwrap()@[0].unwrap() as int == port,
        rc.labels@.len() == 7,
        rc.labels@[0].0@ == "easyharun"@ && rc.labels@[0].1@ == "1.0.0"@,
        rc.labels@[1].0@ == "easyharun_name"@ && rc.labels@[1].1@ == w.name,
        rc.labels@[2].0@ == "easyharun_image"@ && rc.labels@[2].1@ == w.image,
        rc.labels@[3].0@ == "easyharun_replica_id"@ && rc.labels@[3].1@ == spec_dec(w.replica_id),
        rc.labels@[4].0@ == "easyharun_container_port"@ && rc.labels@[4].1@ == spec_dec(
            w.container_port,
        ),
        rc.labels@[5].0@ == "easyharun_health_checks"@ && rc.labels@[5].1@ == spec_join(
            w.health_checks,
            ","@,
        ),
        rc.labels@[6].0@ == "easyharun_proxies"@ && rc.labels@[6].1@ == spec_join(
            w.proxies,
            ","@,
        ),
        0 <= w.replica_id <= u32::MAX,
        0 <= w.container_port <= u32::MAX,
        w.health_checks.len() > 0,
        forall|i: int| 0 <= i < w.health_checks.len() ==> !(#[trigger] w.health_checks[i]).contains(','),
        w.proxies.len() > 0,
        forall|i: int| 0 <= i < w.proxies.len() ==> !(#[trigger] w.proxies[i]).contains(','),
    ensures
        spec_owned(rc),
        spec_build_container(rc) == Ok::<WorldContainerView, crate::docker_world::DockerWorldError>(
            WorldContainerView {
                container_id: Some(id),
                name: w.name,
                image: w.image,
                replica_id: w.replica_id,
                container_port: w.container_port,
                container_port_dynamic_host: Some(port),
                health_checks: w.health_checks,
                proxies: w.proxies,
            },
        ),
{
    reveal_strlit("easyharun");
    reveal_strlit("easyharun_name");
    reveal_strlit("easyharun_image");
    reveal_strlit("easyharun_replica_id");
    reveal_strlit("easyharun_container_port");
    reveal_strlit("easyharun_health_checks");
    reveal_strlit("easyharun_proxies");
    reveal_strlit(",");

    // The seven label keys all differ, because their lengths differ.
    let labels = rc.labels@;
    assert("easyharun"@.len() == 9);
    assert("easyharun_name"@.len() == 14);
    assert("easyharun_image"@.len() == 15);
    assert("easyharun_replica_id"@.len() == 20);
    assert("easyharun_container_port"@.len() == 24);
    assert("easyharun_health_checks"@.len() == 23);
    assert("easyharun_proxies"@.len() == 17);

    lemma_alist_lookup_at(labels, "easyharun"@, 0);
    lemma_alist_lookup_at(labels, "easyharun_name"@, 1);
    lemma_alist_lookup_at(labels, "easyharun_image"@, 2);
    lemma_alist_lookup_at(labels, "easyharun_replica_id"@, 3);
    lemma_alist_lookup_at(labels, "easyharun_container_port"@, 4);
    lemma_alist_lookup_at(labels, "easyharun_health_checks"@, 5);
    lemma_alist_lookup_at(labels, "easyharun_proxies"@, 6);

    // The numbers read back as themselves.
    lemma_dec_val(w.replica_id);
    lemma_dec_val(w.container_port);

    // The joined name lists split back into themselves.
    assert(","@ =~= seq![',']);
    lemma_split_join(w.health_checks, ',');
    lemma_split_join(w.proxies, ',');
}

} // verus!
