//! Parsing of port-mapping expressions: a comma-separated list of blocks,
//! each either one port or `server:listen`.
use vstd::prelude::*;
use crate::text::{spec_split, spec_trim, split_on_char, trim_str};

verus! {

/// One parsed mapping: the address to listen on and the address to forward
/// to.
pub struct PortMapping {
    pub listen_addr: String,
    pub server_addr: String,
}

pub struct PortMappingParser;

/// `"0.0.0.0:"` followed by the characters of `p`.
pub open spec fn spec_any_host_addr(p: Seq<char>) -> Seq<char> {
    "0.0.0.0:"@ + p
}

/// The fields of one block, split at `:` and trimmed.
pub open spec fn block_fields(block: Seq<char>) -> Seq<Seq<char>> {
    spec_split(block, ':').map_values(|f: Seq<char>| spec_trim(f))
}

/// Is this block well formed: one port, or `server:listen`?
pub open spec fn block_ok(block: Seq<char>) -> bool {
    block_fields(block).len() == 1 || block_fields(block).len() == 2
}

/// The mapping a well-formed block denotes.  A single port listens on and
/// forwards to that port on any host address; a pair `server:listen`
/// forwards the listen port to the server port.
pub open spec fn spec_block_mapping(block: Seq<char>) -> (Seq<char>, Seq<char>) {
    let fields = block_fields(block);
    if fields.len() == 1 {
        (spec_any_host_addr(fields[0]), spec_any_host_addr(fields[0]))
    } else {
        (spec_any_host_addr(fields[1]), spec_any_host_addr(fields[0]))
    }
}

/// Why a port-mapping expression was rejected.
#[derive(Debug, Clone, PartialEq, Eq)]
pub enum PortMappingError {
    /// A block held more than one `:`.
    InvalidBlock,
}

impl PortMappingParser {
    /// Parse a comma-separated list of blocks.  Returns one mapping per
    /// block exactly when every block is well formed; the first malformed
    /// block rejects the whole expression.
    pub fn parse(str: &str) -> (r: Result<Vec<PortMapping>, PortMappingError>)
        ensures
            match r {
                Ok(v) => {
                    &&& forall|b: int|
                        0 <= b < spec_split(str@, ',').len() ==> block_ok(
                            #[trigger] spec_split(str@, ',')[b],
                        )
                    &&& v@.len() == spec_split(str@, ',').len()
                    &&& forall|b: int|
                        0 <= b < v@.len() ==> (#[trigger] v@[b].listen_addr@) == spec_block_mapping(
                            spec_split(str@, ',')[b],
                        ).0 && v@[b].server_addr@ == spec_block_mapping(spec_split(str@, ',')[b]).1
                },
                Err(e) => e == PortMappingError::InvalidBlock && exists|b: int|
                    0 <= b < spec_split(str@, ',').len() && !block_ok(
                        #[trigger] spec_split(str@, ',')[b],
                    ),
            },
    {
        let blocks = split_on_char(str, ',');
        let mut buf: Vec<PortMapping> = Vec::new();
        let mut i: usize = 0;
        while i < blocks.len()
            invariant
                0 <= i <= blocks@.len(),
                blocks@.map_values(|x: String| x@) == spec_split(str@, ','),
                buf@.len() == i,
                forall|b: int| 0 <= b < i ==> block_ok(#[trigger] spec_split(str@, ',')[b]),
                forall|b: int|
                    0 <= b < i ==> (#[trigger] buf@[b].listen_addr@) == spec_block_mapping(
                        spec_split(str@, ',')[b],
                    ).0 && buf@[b].server_addr@ == spec_block_mapping(spec_split(str@, ',')[b]).1,
            decreases blocks@.len() - i,
        {
            proof {
                assert(blocks@.map_values(|x: String| x@)[i as int] == blocks@[i as int]@);
            }
            match Self::parse_single_block(blocks[i].as_str()) {
                Ok(m) => { buf.push(m) },
                Err(e) => { return Err(e) },
            }
            i = i + 1;
        }
        Ok(buf)
    }

    /// Parse one block: `8080` listens on port 8080 and forwards to it;
    /// `8080:80` forwards the listen port 80 to the server port 8080.
    pub fn parse_single_block(str: &str) -> (r: Result<PortMapping, PortMappingError>)
        ensures
            match r {
                Ok(m) => block_ok(str@) && m.listen_addr@ == spec_block_mapping(str@).0
                    && m.server_addr@ == spec_block_mapping(str@).1,
                Err(e) => e == PortMappingError::InvalidBlock && !block_ok(str@),
            },
    {
        let raw = split_on_char(str, ':');
        let mut ports: Vec<String> = Vec::new();
        let mut i: usize = 0;
        while i < raw.len()
            invariant
                0 <= i <= raw@.len(),
                raw@.map_values(|x: String| x@) == spec_split(str@, ':'),
                ports@.len() == i,
                forall|b: int|
                    0 <= b < i ==> (#[trigger] ports@[b]@) == block_fields(str@)[b],
            decreases raw@.len() - i,
        {
            proof {
                assert(raw@.map_values(|x: String| x@)[i as int] == raw@[i as int]@);
                assert(block_fields(str@)[i as int] == spec_trim(spec_split(str@, ':')[i as int]));
            }
            ports.push(trim_str(raw[i].as_str()));
            i = i + 1;
        }
        proof {
            assert(ports@.len() == block_fields(str@).len());
        }
        if ports.len() == 1 {
            Ok(
                PortMapping {
                    server_addr: any_host_addr(ports[0].as_str()),
                    listen_addr: any_host_addr(ports[0].as_str()),
                },
            )
        } else if ports.len() == 2 {
            Ok(
                PortMapping {
                    server_addr: any_host_addr(ports[0].as_str()),
                    listen_addr: any_host_addr(ports[1].as_str()),
                },
            )
        } else {
            Err(PortMappingError::InvalidBlock)
        }
    }
}

/// `"0.0.0.0:"` followed by `p`.
pub fn any_host_addr(p: &str) -> (r: String)
    ensures
        r@ == spec_any_host_addr(p@),
{
    let mut r = String::from_str("0.0.0.0:");
    r.append(p);
    r
}

} // verus!
