//! The processes that take part, as the host list names them.

use crate::text::{field_after, next_field, number_of, parse_number};
use vstd::prelude::*;
use vstd::slice::slice_subrange;
use vstd::utf8::{decode_utf8, valid_utf8};

verus! {

/// One process of the system.
#[derive(Debug, PartialEq, Eq)]
pub struct Node {
    pub id: u32,
    pub address: String,
    pub port: u16,
}

/// The mathematical value of a [`Node`].
pub ghost struct NodeView {
    pub id: u32,
    pub address: Seq<char>,
    pub port: u16,
}

impl View for Node {
    type V = NodeView;

    open spec fn view(&self) -> NodeView {
        NodeView { id: self.id, address: self.address@, port: self.port }
    }
}

impl Clone for Node {
    fn clone(&self) -> (copy: Self)
        ensures
            copy@ == self@,
    {
        Node { id: self.id, address: self.address.clone(), port: self.port }
    }
}

/// The position of the first node called `id` in a host list, if any.
pub open spec fn position_of(nodes: Seq<Node>, id: u32) -> Option<int>
    decreases nodes.len(),
{
    if nodes.len() == 0 {
        None
    } else if nodes[0].id == id {
        Some(0)
    } else {
        match position_of(nodes.drop_first(), id) {
            Some(position) => Some(position + 1),
            None => None,
        }
    }
}

/// `position_of` finds the first node of that name, and finds none only
/// where no node has it.
pub proof fn lemma_position_of(nodes: Seq<Node>, id: u32)
    ensures
        match position_of(nodes, id) {
            Some(position) => {
                &&& 0 <= position < nodes.len()
                &&& nodes[position].id == id
                &&& forall|earlier: int| 0 <= earlier < position ==> nodes[earlier].id != id
            },
            None => forall|any: int| 0 <= any < nodes.len() ==> nodes[any].id != id,
        },
    decreases nodes.len(),
{
    if nodes.len() > 0 && nodes[0].id != id {
        let rest = nodes.drop_first();
        lemma_position_of(rest, id);
        match position_of(rest, id) {
            Some(position) => {
                assert forall|earlier: int| 0 <= earlier < position + 1 implies nodes[earlier].id
                    != id by {
                    if earlier > 0 {
                        assert(rest[earlier - 1].id != id);
                    }
                }
            },
            None => {
                assert forall|any: int| 0 <= any < nodes.len() implies nodes[any].id != id by {
                    if any > 0 {
                        assert(rest[any - 1].id != id);
                    }
                }
            },
        }
    }
}

/// Looks a process up by its identifier. Where the list names it twice, the
/// first entry counts.
pub fn find_node(nodes: &Vec<Node>, id: u32) -> (found: Option<&Node>)
    ensures
        match (found, position_of(nodes@, id)) {
            (Some(node), Some(position)) => 0 <= position < nodes.len() && *node
                == nodes[position],
            (None, None) => true,
            _ => false,
        },
{
    let mut index: usize = 0;
    while index < nodes.len()
        invariant
            index <= nodes.len(),
            forall|earlier: int| 0 <= earlier < index ==> nodes[earlier].id != id,
        decreases nodes.len() - index,
    {
        if nodes[index].id == id {
            proof {
                lemma_position_of(nodes@, id);
            }
            return Some(&nodes[index]);
        }
        index += 1;
    }
    proof {
        lemma_position_of(nodes@, id);
    }
    None
}

/// No two nodes of a host list have the same identifier.
pub open spec fn ids_are_distinct(nodes: Seq<Node>) -> bool {
    forall|i: int, j: int|
        0 <= i < j < nodes.len() ==> (#[trigger] nodes[i]).id != (#[trigger] nodes[j]).id
}

/// Enters a node in a host list. Where the list names the node already, the
/// new entry takes the place of the old one; otherwise it goes to the end.
pub fn register_node(nodes: &mut Vec<Node>, node: Node)
    ensures
        match position_of(old(nodes)@, node.id) {
            Some(position) => 0 <= position < old(nodes).len() && final(nodes)@ == old(
                nodes,
            )@.update(position, node),
            None => final(nodes)@ == old(nodes)@.push(node),
        },
        ids_are_distinct(old(nodes)@) ==> ids_are_distinct(final(nodes)@),
{
    let mut index: usize = 0;
    while index < nodes.len()
        invariant
            index <= nodes.len(),
            nodes@ == old(nodes)@,
            forall|earlier: int| 0 <= earlier < index ==> nodes[earlier].id != node.id,
        decreases nodes.len() - index,
    {
        if nodes[index].id == node.id {
            proof {
                lemma_position_of(nodes@, node.id);
            }
            nodes[index] = node;
            return ;
        }
        index += 1;
    }
    proof {
        lemma_position_of(nodes@, node.id);
    }
    nodes.push(node);
}

/// Why a line of the host list names no node.
#[derive(Debug, Clone, Copy, PartialEq, Eq, Structural)]
pub enum HostsError {
    /// The line has fewer than three fields.
    MissingField,
    /// The identifier or the port is no number, or too large a one.
    InvalidNumber,
    /// The address is no text.
    InvalidAddress,
}

/// `String::from_utf8`, which turns bytes into the text that they encode in
/// UTF-8 and fails where they encode none. The contract claims that, over
/// the definition of UTF-8 that `vstd` gives.
#[verifier::external_body]
fn string_from_utf8(bytes: Vec<u8>) -> (text: Option<String>)
    ensures
        match text {
            Some(string) => valid_utf8(bytes@) && string@ == decode_utf8(bytes@),
            None => !valid_utf8(bytes@),
        },
{
    String::from_utf8(bytes).ok()
}

/// The number that a field of a line writes, if it is one and no larger
/// than `largest`.
pub open spec fn field_number(bytes: Seq<u8>, field: (int, int), largest: nat) -> Option<nat> {
    match number_of(bytes.subrange(field.0, field.1)) {
        Some(value) => if value <= largest {
            Some(value)
        } else {
            None
        },
        None => None,
    }
}

/// The node that a line of the host list names: its first three fields are
/// the identifier, the address and the port, and what follows them is
/// ignored.
pub open spec fn host_line(bytes: Seq<u8>) -> Result<NodeView, HostsError> {
    match field_after(bytes, 0) {
        None => Err(HostsError::MissingField),
        Some(id_field) => match field_number(bytes, id_field, u32::MAX as nat) {
            None => Err(HostsError::InvalidNumber),
            Some(id) => match field_after(bytes, id_field.1) {
                None => Err(HostsError::MissingField),
                Some(address_field) => if !valid_utf8(
                    bytes.subrange(address_field.0, address_field.1),
                ) {
                    Err(HostsError::InvalidAddress)
                } else {
                    match field_after(bytes, address_field.1) {
                        None => Err(HostsError::MissingField),
                        Some(port_field) => match field_number(
                            bytes,
                            port_field,
                            u16::MAX as nat,
                        ) {
                            None => Err(HostsError::InvalidNumber),
                            Some(port) => Ok(
                                NodeView {
                                    id: id as u32,
                                    address: decode_utf8(
                                        bytes.subrange(address_field.0, address_field.1),
                                    ),
                                    port: port as u16,
                                },
                            ),
                        },
                    }
                },
            },
        },
    }
}

/// Copies the bytes `begin..end` of a line.
fn copy_field(bytes: &[u8], begin: usize, end: usize) -> (field: Vec<u8>)
    requires
        begin <= end <= bytes.len(),
    ensures
        field@ == bytes@.subrange(begin as int, end as int),
{
    let mut field: Vec<u8> = Vec::new();
    let mut index = begin;
    while index < end
        invariant
            begin <= index <= end <= bytes.len(),
            field@ == bytes@.subrange(begin as int, index as int),
        decreases end - index,
    {
        field.push(bytes[index]);
        index += 1;
        assert(field@ =~= bytes@.subrange(begin as int, index as int));
    }
    field
}

/// Reads one line of the host list: `id address port`, separated by blanks.
pub fn parse_host_line(line: &[u8]) -> (result: Result<Node, HostsError>)
    ensures
        match result {
            Ok(node) => host_line(line@) == Ok::<NodeView, HostsError>(node@),
            Err(error) => host_line(line@) == Err::<NodeView, HostsError>(error),
        },
{
    let (id_begin, id_end) = match next_field(line, 0) {
        Some(field) => field,
        None => {
            return Err(HostsError::MissingField);
        },
    };
    let id = match parse_number(slice_subrange(line, id_begin, id_end), u32::MAX) {
        Some(id) => id,
        None => {
            return Err(HostsError::InvalidNumber);
        },
    };
    let (address_begin, address_end) = match next_field(line, id_end) {
        Some(field) => field,
        None => {
            return Err(HostsError::MissingField);
        },
    };
    let address = match string_from_utf8(copy_field(line, address_begin, address_end)) {
        Some(address) => address,
        None => {
            return Err(HostsError::InvalidAddress);
        },
    };
    let (port_begin, port_end) = match next_field(line, address_end) {
        Some(field) => field,
        None => {
            return Err(HostsError::MissingField);
        },
    };
    let port = match parse_number(slice_subrange(line, port_begin, port_end), 65535) {
        Some(port) => port,
        None => {
            return Err(HostsError::InvalidNumber);
        },
    };
    Ok(Node { id, address, port: port as u16 })
}

/// The values of the nodes of a host list.
pub open spec fn node_views(nodes: Seq<Node>) -> Seq<NodeView> {
    nodes.map_values(|node: Node| node@)
}

/// The position of the first entry called `id` among the values of a host
/// list, if any.
pub open spec fn place_of(listed: Seq<NodeView>, id: u32) -> Option<int>
    decreases listed.len(),
{
    if listed.len() == 0 {
        None
    } else if listed[0].id == id {
        Some(0)
    } else {
        match place_of(listed.drop_first(), id) {
            Some(place) => Some(place + 1),
            None => None,
        }
    }
}

/// A host list with one more node entered, as [`register_node`] enters it.
pub open spec fn entered(listed: Seq<NodeView>, node: NodeView) -> Seq<NodeView> {
    match place_of(listed, node.id) {
        Some(place) => listed.update(place, node),
        None => listed.push(node),
    }
}

/// A node stands where its value stands.
pub proof fn lemma_place_of_views(nodes: Seq<Node>, id: u32)
    ensures
        place_of(node_views(nodes), id) == position_of(nodes, id),
    decreases nodes.len(),
{
    if nodes.len() > 0 {
        assert(node_views(nodes).drop_first() =~= node_views(nodes.drop_first()));
        lemma_place_of_views(nodes.drop_first(), id);
    }
}

/// Where the line that begins at `from` ends: at the next line feed, or at
/// the end of the text.
pub open spec fn line_end(text: Seq<u8>, from: int) -> int
    decreases text.len() - from,
{
    if from < 0 || from >= text.len() {
        text.len() as int
    } else if text[from] == 10 {
        from
    } else {
        line_end(text, from + 1)
    }
}

/// The host list that the lines of a text from `from` on add to `listed`,
/// or the number of the first line that names no node and what is wrong
/// with it. A line ends at a line feed; the text after the last line feed
/// is a line unless it is empty.
pub open spec fn hosts_of(text: Seq<u8>, from: int, line: nat, listed: Seq<NodeView>) -> Result<
    Seq<NodeView>,
    (nat, HostsError),
>
    decreases text.len() - from,
{
    if from < 0 || from >= text.len() {
        Ok(listed)
    } else {
        proof {
            lemma_line_end(text, from);
        }
        let end = line_end(text, from);
        match host_line(text.subrange(from, end)) {
            Ok(node) => if end < text.len() {
                hosts_of(text, end + 1, line + 1, entered(listed, node))
            } else {
                Ok(entered(listed, node))
            },
            Err(error) => Err((line, error)),
        }
    }
}

/// A line ends at or after its beginning, within the text.
pub proof fn lemma_line_end(text: Seq<u8>, from: int)
    requires
        0 <= from <= text.len(),
    ensures
        from <= line_end(text, from) <= text.len(),
        line_end(text, from) < text.len() ==> text[line_end(text, from)] == 10,
        forall|k: int| from <= k < line_end(text, from) ==> text[k] != 10,
    decreases text.len() - from,
{
    if from < text.len() && text[from] != 10 {
        lemma_line_end(text, from + 1);
    }
}

/// Finds the end of the line that begins at `from`.
fn find_line_end(text: &[u8], from: usize) -> (end: usize)
    requires
        from <= text.len(),
    ensures
        end == line_end(text@, from as int),
        from <= end <= text.len(),
{
    let mut end = from;
    while end < text.len() && text[end] != 10
        invariant
            from <= end <= text.len(),
            line_end(text@, end as int) == line_end(text@, from as int),
        decreases text.len() - end,
    {
        end += 1;
    }
    end
}

/// Reads a host list from the bytes of its file: one node a line, each
/// entered as [`register_node`] enters it, up to the first line that names
/// no node.
pub fn parse_hosts(text: &[u8]) -> (result: Result<Vec<Node>, (usize, HostsError)>)
    ensures
        match result {
            Ok(nodes) => hosts_of(text@, 0, 1, Seq::empty()) == Ok::<
                Seq<NodeView>,
                (nat, HostsError),
            >(node_views(nodes@)) && ids_are_distinct(nodes@),
            Err((line, error)) => hosts_of(text@, 0, 1, Seq::empty()) == Err::<
                Seq<NodeView>,
                (nat, HostsError),
            >((line as nat, error)),
        },
{
    let ghost goal = hosts_of(text@, 0, 1, Seq::empty());
    let mut nodes: Vec<Node> = Vec::new();
    let mut from: usize = 0;
    let mut line: usize = 1;
    assert(node_views(nodes@) =~= Seq::empty());
    while from < text.len()
        invariant
            from <= text.len(),
            1 <= line <= from + 1,
            ids_are_distinct(nodes@),
            goal == hosts_of(text@, 0, 1, Seq::empty()),
            hosts_of(text@, from as int, line as nat, node_views(nodes@)) == goal,
        decreases text.len() - from,
    {
        let end = find_line_end(text, from);
        let ghost listed = node_views(nodes@);
        proof {
            lemma_line_end(text@, from as int);
        }
        match parse_host_line(slice_subrange(text, from, end)) {
            Ok(node) => {
                proof {
                    lemma_place_of_views(nodes@, node.id);
                }
                let ghost view = node@;
                register_node(&mut nodes, node);
                assert(node_views(nodes@) =~= entered(listed, view));
            },
            Err(error) => {
                return Err((line, error));
            },
        }
        if end == text.len() {
            from = end;
        } else {
            from = end + 1;
            line = line + 1;
        }
    }
    Ok(nodes)
}

} // verus!
