//! High-level operations on an open KiCad board document.
//!
//! A [`BoardHandle`] pairs a [`BoardClient`] (the IPC connection, answering
//! one decoded reply per KiCad command) with the target document. The
//! handle decides what to ask and how to read the replies; writes go
//! through one commit so they form a single undo step.
use vstd::prelude::*;
use crate::board_items::{coils_in_range, coils_items, coils_to_board_items, io_elements_to_board_items, io_items, items_view, BoardItem, ItemView, Vector2};
use crate::diagnostics::BoardDiagnostics;
use crate::edge_bbox::{edge_cut_bbox_nm, edge_union, ShapeBox};
use crate::geometry::{PhaseCoil, RoutingResult};
use crate::order::{insert_sorted_unique, strictly_sorted, texts};
use crate::rules::DesignRules;
use crate::tally::{count_ok, failure_texts, is_failure_summary, lemma_failure_texts_len, lemma_summary_accounts_for_every_item, summary_total, tally_item_results, ItemCreationResult, MAX_FAILURES_TO_REPORT};
use crate::text::{half_away, int_text, push_int, push_str};
use crate::transport::KiCadError;
use vstd::string::StrSliceExecFns;

verus! {

// ---------------------------------------------------------------------------
// Documents
// ---------------------------------------------------------------------------

/// Kind of an open KiCad document.
#[derive(Debug, Clone, Copy, PartialEq, Eq, Structural)]
pub enum DocumentType {
    DoctypeUnknown,
    DoctypeSchematic,
    DoctypeSymbol,
    DoctypePcb,
    DoctypeFootprint,
    DoctypeDrawingSheet,
    DoctypeProject,
}

/// What identifies a document.
pub enum DocumentIdentifier {
    /// A board, by its file name.
    BoardFilename(String),
}

/// An open KiCad document.
pub struct DocumentSpecifier {
    pub doc_type: DocumentType,
    pub identifier: Option<DocumentIdentifier>,
}

/// Which board origin to read.
#[derive(Debug, Clone, Copy, PartialEq, Eq, Structural)]
pub enum BoardOriginType {
    BotUnknown,
    BotGrid,
    BotDrill,
}

/// An effective net class as KiCad reports it for a net. A composite
/// (implicit) class has an empty name and lists the explicit classes it
/// merges.
pub struct NetClass {
    pub name: String,
    pub constituents: Vec<String>,
}

/// A KiCad object id.
pub struct Kiid {
    pub value: String,
}

/// How a commit ends.
#[derive(Debug, Clone, Copy, PartialEq, Eq, Structural)]
pub enum CommitAction {
    CmaUnknown,
    CmaCommit,
    CmaDrop,
}

/// The wire value of a commit action.
pub open spec fn commit_action_value(a: CommitAction) -> i32 {
    match a {
        CommitAction::CmaUnknown => 0,
        CommitAction::CmaCommit => 1,
        CommitAction::CmaDrop => 2,
    }
}

/// The wire value of a commit action.
pub fn commit_action_code(a: CommitAction) -> (c: i32)
    ensures
        c == commit_action_value(a),
{
    match a {
        CommitAction::CmaUnknown => 0,
        CommitAction::CmaCommit => 1,
        CommitAction::CmaDrop => 2,
    }
}

/// The command that ends a commit.
pub struct EndCommit {
    pub id: Option<Kiid>,
    pub action: i32,
    pub message: String,
}

/// Axis-aligned bounding box of the board's edge cuts [nm].
#[derive(Debug, Clone, Copy, PartialEq, Eq, Structural)]
pub struct EdgeBox {
    pub x_min_nm: i64,
    pub y_min_nm: i64,
    pub x_max_nm: i64,
    pub y_max_nm: i64,
}

/// The connection to KiCad, one method per command, each answering the
/// decoded reply (or the error the exchange ended in). `history` is every
/// exchange the connection has had, in order: each command appends itself
/// with what it sent and what came back.
pub trait BoardClient {
    /// The exchanges so far, oldest first.
    spec fn history(&self) -> History;

    /// `GetBoardEnabledLayers`: the board's copper layer count.
    fn get_board_enabled_layers(&mut self, board: &DocumentSpecifier) -> (r: Result<u32, KiCadError>)
        ensures
            final(self).history() == old(self).history().push(Exchange::GetBoardEnabledLayers(*board, r)),
    ;

    /// `GetNets`: the names of the board's nets, as KiCad lists them.
    fn get_nets(&mut self, board: &DocumentSpecifier) -> (r: Result<Vec<String>, KiCadError>)
        ensures
            final(self).history() == old(self).history().push(Exchange::GetNets(*board, texts_reply(r))),
    ;

    /// `GetNetClassForNets`: the effective net class of each net.
    fn get_net_class_for_nets(&mut self, nets: &Vec<String>) -> (r: Result<Vec<NetClass>, KiCadError>)
        ensures
            final(self).history() == old(self).history().push(
                Exchange::GetNetClassForNets(texts(nets@), seq_reply(r)),
            ),
    ;

    /// `GetBoardOrigin`: the requested origin point.
    fn get_board_origin(&mut self, board: &DocumentSpecifier, origin_type: BoardOriginType) -> (r: Result<
        Vector2,
        KiCadError,
    >)
        ensures
            final(self).history() == old(self).history().push(Exchange::GetBoardOrigin(*board, origin_type, r)),
    ;

    /// `GetItems` for the board's graphic shapes: the reply's item-request
    /// status, and each decoded shape with its layer and its own bounding
    /// box.
    fn get_board_shapes(&mut self, board: &DocumentSpecifier) -> (r: Result<ShapesReply, KiCadError>)
        ensures
            final(self).history() == old(self).history().push(Exchange::GetItems(*board, shapes_reply(r))),
    ;

    /// `BeginCommit`: open a commit and return its id.
    fn begin_commit(&mut self) -> (r: Result<Kiid, KiCadError>)
        ensures
            final(self).history() == old(self).history().push(Exchange::BeginCommit(id_reply(r))),
    ;

    /// `CreateItems`: create the items in the document, answering one
    /// result per item.
    fn create_items(&mut self, items: &Vec<BoardItem>, document: &DocumentSpecifier) -> (r: Result<
        Vec<ItemCreationResult>,
        KiCadError,
    >)
        ensures
            final(self).history() == old(self).history().push(
                Exchange::CreateItems(*document, items_view(items@), seq_reply(r)),
            ),
    ;

    /// `EndCommit`.
    fn end_commit(&mut self, command: EndCommit) -> (r: Result<(), KiCadError>)
        ensures
            final(self).history() == old(self).history().push(
                Exchange::EndCommit(id_text(command.id), command.action, command.message@, r),
            ),
    ;
}

// ---------------------------------------------------------------------------
// Write results
// ---------------------------------------------------------------------------

/// Outcome of a board write: how many items were sent, how many KiCad
/// accepted, the first rejection messages and the code-grouped summary of
/// all rejections.
pub struct WriteCoilsResult {
    pub items_attempted: u32,
    pub items_created: u32,
    pub failures: Vec<String>,
    pub failure_summary: Vec<(i32, u32)>,
}

/// `res` tallies `created`, as [`tally_item_results`] does.
#[verifier::opaque]
pub open spec fn is_tally_of(res: WriteCoilsResult, created: Seq<ItemCreationResult>) -> bool {
    let f = failure_texts(created);
    &&& res.items_created == count_ok(created)
    &&& res.failures@.map_values(|m: String| m@) == f.take(
        if f.len() < MAX_FAILURES_TO_REPORT { f.len() as int } else { MAX_FAILURES_TO_REPORT as int },
    )
    &&& is_failure_summary(created, res.failure_summary@)
}

// ---------------------------------------------------------------------------
// Reading replies
// ---------------------------------------------------------------------------

/// The non-empty names of `names`, in order.
pub open spec fn non_empty_names(names: Seq<Seq<char>>) -> Seq<Seq<char>>
    decreases names.len(),
{
    if names.len() == 0 {
        seq![]
    } else if names.last().len() == 0 {
        non_empty_names(names.drop_last())
    } else {
        non_empty_names(names.drop_last()).push(names.last())
    }
}

/// The net names of a `GetNets` reply, without the unnamed nets.
pub fn net_names_of(nets: &Vec<String>) -> (names: Vec<String>)
    ensures
        texts(names@) == non_empty_names(texts(nets@)),
{
    let mut names: Vec<String> = Vec::new();
    let mut i: usize = 0;
    while i < nets.len()
        invariant
            i <= nets@.len(),
            texts(names@) == non_empty_names(texts(nets@.take(i as int))),
        decreases nets.len() - i,
    {
        proof {
            assert(texts(nets@.take(i + 1)).drop_last() =~= texts(nets@.take(i as int)));
            assert(texts(nets@.take(i + 1)).last() == nets@[i as int]@);
        }
        if nets[i].as_str().unicode_len() > 0 {
            let ghost before = names@;
            names.push(nets[i].clone());
            assert(texts(names@) =~= texts(before).push(nets@[i as int]@));
        }
        i = i + 1;
    }
    assert(nets@.take(nets@.len() as int) =~= nets@);
    names
}

/// A class name stands for the classes in use: a named class itself, or the
/// non-empty constituents of a composite one.
pub open spec fn class_names(c: NetClass) -> Set<Seq<char>> {
    if c.name@.len() > 0 {
        set![c.name@]
    } else {
        Set::new(|t: Seq<char>| t.len() > 0 && texts(c.constituents@).contains(t))
    }
}

/// `t` is one of the class names in use according to `classes`.
pub open spec fn in_use_class(classes: Seq<NetClass>, t: Seq<char>) -> bool {
    exists|i: int| 0 <= i < classes.len() && #[trigger] class_names(classes[i]).contains(t)
}

/// The distinct class names in use according to a `GetNetClassForNets`
/// reply, sorted.
pub fn effective_net_classes(classes: &Vec<NetClass>) -> (names: Vec<String>)
    ensures
        strictly_sorted(texts(names@)),
        forall|t: Seq<char>| texts(names@).contains(t) <==> in_use_class(classes@, t),
{
    let mut names: Vec<String> = Vec::new();
    let mut i: usize = 0;
    while i < classes.len()
        invariant
            i <= classes@.len(),
            strictly_sorted(texts(names@)),
            forall|t: Seq<char>| texts(names@).contains(t) <==> in_use_class(classes@.take(i as int), t),
        decreases classes.len() - i,
    {
        let c = &classes[i];
        let ghost before = texts(names@);
        let ghost pre = classes@.take(i as int);
        let ghost next = classes@.take(i + 1);
        proof {
            assert forall|t: Seq<char>| in_use_class(next, t) <==> (in_use_class(pre, t) || class_names(
                classes@[i as int],
            ).contains(t)) by {
                if in_use_class(next, t) {
                    let k = choose|k: int| 0 <= k < next.len() && #[trigger] class_names(next[k]).contains(t);
                    if k < i {
                        assert(pre[k] == next[k]);
                    }
                }
                if in_use_class(pre, t) {
                    let k = choose|k: int| 0 <= k < pre.len() && #[trigger] class_names(pre[k]).contains(t);
                    assert(next[k] == pre[k]);
                }
                if class_names(classes@[i as int]).contains(t) {
                    assert(next[i as int] == classes@[i as int]);
                }
            }
        }
        if c.name.as_str().unicode_len() > 0 {
            insert_sorted_unique(&mut names, c.name.clone());
            proof {
                assert forall|t: Seq<char>| texts(names@).contains(t) <==> in_use_class(next, t) by {
                    assert(class_names(classes@[i as int]).contains(t) <==> t == c.name@);
                }
            }
        } else {
            let ghost start = texts(names@);
            let mut j: usize = 0;
            while j < c.constituents.len()
                invariant
                    j <= c.constituents@.len(),
                    strictly_sorted(texts(names@)),
                    forall|t: Seq<char>| texts(names@).contains(t) <==> (start.contains(t) || (t.len() > 0
                        && texts(c.constituents@.take(j as int)).contains(t))),
                decreases c.constituents.len() - j,
            {
                let ghost mid = texts(names@);
                let ghost cj = c.constituents@[j as int]@;
                let nonempty = c.constituents[j].as_str().unicode_len() > 0;
                if nonempty {
                    insert_sorted_unique(&mut names, c.constituents[j].clone());
                }
                proof {
                    let tj = texts(c.constituents@.take(j as int));
                    let tj1 = texts(c.constituents@.take(j + 1));
                    assert(tj1 =~= tj.push(cj));
                    assert(nonempty == (cj.len() > 0));
                    assert forall|t: Seq<char>| texts(names@).contains(t) <==> (start.contains(t) || (t.len() > 0
                        && tj1.contains(t))) by {
                        assert(mid.contains(t) <==> (start.contains(t) || (t.len() > 0 && tj.contains(t))));
                        if tj.contains(t) {
                            let k = choose|k: int| 0 <= k < tj.len() && tj[k] == t;
                            assert(tj1[k] == t);
                        }
                        if tj1.contains(t) {
                            let k = choose|k: int| 0 <= k < tj1.len() && tj1[k] == t;
                            if k < j {
                                assert(tj[k] == t);
                            } else {
                                assert(t == cj);
                            }
                        }
                        if t == cj {
                            assert(tj1[j as int] == t);
                        }
                        if nonempty {
                            assert(texts(names@).contains(t) <==> (mid.contains(t) || t == cj));
                        } else {
                            assert(texts(names@) == mid);
                        }
                    }
                }
                j = j + 1;
            }
            assert(c.constituents@.take(c.constituents@.len() as int) =~= c.constituents@);
            proof {
                assert forall|t: Seq<char>| texts(names@).contains(t) <==> in_use_class(next, t) by {
                    assert(class_names(classes@[i as int]).contains(t) <==> (t.len() > 0 && texts(
                        c.constituents@,
                    ).contains(t)));
                    assert(start.contains(t) <==> in_use_class(pre, t));
                    assert(in_use_class(next, t) <==> (in_use_class(pre, t) || class_names(classes@[i as int]).contains(t)));
                }
            }
        }
        i = i + 1;
    }
    assert(classes@.take(classes@.len() as int) =~= classes@);
    names
}

// ---------------------------------------------------------------------------
// The handle
// ---------------------------------------------------------------------------

/// One exchange with KiCad: the command sent, with what it names, and
/// KiCad's answer or the error the exchange ended in.
pub enum Exchange {
    /// `GetBoardEnabledLayers` for a board, answered with the copper layer count.
    GetBoardEnabledLayers(DocumentSpecifier, Result<u32, KiCadError>),
    /// `GetNets` for a board, answered with the names of its nets.
    GetNets(DocumentSpecifier, Result<Seq<Seq<char>>, KiCadError>),
    /// `GetNetClassForNets` for these net names, answered with their classes.
    GetNetClassForNets(Seq<Seq<char>>, Result<Seq<NetClass>, KiCadError>),
    /// `GetItems` for a board's graphics, answered with the item-request
    /// status and the shapes.
    GetItems(DocumentSpecifier, Result<(i32, Seq<ShapeBox>), KiCadError>),
    /// `GetBoardOrigin` of this kind for a board, answered with the point.
    GetBoardOrigin(DocumentSpecifier, BoardOriginType, Result<Vector2, KiCadError>),
    /// `BeginCommit`, answered with the new commit's id.
    BeginCommit(Result<Seq<char>, KiCadError>),
    /// `CreateItems` of these items in a document, answered with one result
    /// per item.
    CreateItems(DocumentSpecifier, Seq<ItemView>, Result<Seq<ItemCreationResult>, KiCadError>),
    /// `EndCommit` of this commit id with this action and message, and
    /// KiCad's answer.
    EndCommit(Option<Seq<char>>, i32, Seq<char>, Result<(), KiCadError>),
}

/// The exchanges a connection has had with KiCad, oldest first.
pub type History = Seq<Exchange>;

/// KiCad's `ItemRequestStatus::IRS_OK`: the item request was served.
pub const ITEM_REQUEST_OK: i32 = 1;

/// A `GetItems` reply: its item-request status and the shapes it holds.
pub struct ShapesReply {
    pub status: i32,
    pub shapes: Vec<ShapeBox>,
}

/// A `GetItems` reply as its status and shape sequence.
pub open spec fn shapes_reply(r: Result<ShapesReply, KiCadError>) -> Result<(i32, Seq<ShapeBox>), KiCadError> {
    match r {
        Ok(rep) => Ok((rep.status, rep.shapes@)),
        Err(e) => Err(e),
    }
}

/// The error for a `GetItems` reply whose item-request status is not OK.
pub open spec fn items_status_message(status: i32) -> Seq<char> {
    "GetItems failed with ItemRequestStatus "@ + int_text(status as int)
}

/// A list reply as a sequence.
pub open spec fn seq_reply<T>(r: Result<Vec<T>, KiCadError>) -> Result<Seq<T>, KiCadError> {
    match r {
        Ok(v) => Ok(v@),
        Err(e) => Err(e),
    }
}

/// A reply of names as texts.
pub open spec fn texts_reply(r: Result<Vec<String>, KiCadError>) -> Result<Seq<Seq<char>>, KiCadError> {
    match r {
        Ok(v) => Ok(texts(v@)),
        Err(e) => Err(e),
    }
}

/// A commit-id reply as text.
pub open spec fn id_reply(r: Result<Kiid, KiCadError>) -> Result<Seq<char>, KiCadError> {
    match r {
        Ok(k) => Ok(k.value@),
        Err(e) => Err(e),
    }
}

/// The text of an optional commit id.
pub open spec fn id_text(id: Option<Kiid>) -> Option<Seq<char>> {
    match id {
        Some(k) => Some(k.value@),
        None => None,
    }
}

/// `after` is `before` with further exchanges appended.
pub open spec fn extends(before: Seq<Exchange>, after: Seq<Exchange>) -> bool {
    before.len() <= after.len() && after.take(before.len() as int) == before
}

/// The exchanges of `after` that followed `before`.
pub open spec fn sent_since(before: Seq<Exchange>, after: Seq<Exchange>) -> Seq<Exchange> {
    after.skip(before.len() as int)
}

/// The sorted, distinct class names in use according to `classes`.
pub open spec fn is_effective_classes(names: Seq<Seq<char>>, classes: Seq<NetClass>) -> bool {
    &&& strictly_sorted(names)
    &&& forall|t: Seq<char>| names.contains(t) <==> in_use_class(classes, t)
}

/// The reason a document has no board name.
pub open spec fn not_a_pcb_message() -> Seq<char> {
    "document is not a PCB (no board_filename identifier)"@
}

/// High-level handle to an open board document.
pub struct BoardHandle<'a, C: BoardClient> {
    pub client: &'a mut C,
    pub document: DocumentSpecifier,
}

impl<'a, C: BoardClient> BoardHandle<'a, C> {
    /// A handle bound to `document`; nothing is sent.
    pub fn new(client: &'a mut C, document: DocumentSpecifier) -> (h: Self)
        ensures
            h.document == document,
            *h.client == *old(client),
    {
        BoardHandle { client, document }
    }

    /// The document the handle targets.
    pub fn document(&self) -> (d: &DocumentSpecifier)
        ensures
            *d == self.document,
    {
        &self.document
    }

    /// The board's file name, e.g. `motor.kicad_pcb`; an error when the
    /// document is not identified by a board file name. Nothing is sent.
    pub fn name(&self) -> (r: Result<String, KiCadError>)
        ensures
            match self.document.identifier {
                Some(DocumentIdentifier::BoardFilename(n)) => r matches Ok(s) && s@ == n@,
                None => r matches Err(KiCadError::Protocol(m)) && m@ == not_a_pcb_message(),
            },
    {
        match &self.document.identifier {
            Some(DocumentIdentifier::BoardFilename(n)) => Ok(n.clone()),
            None => {
                let mut m = String::new();
                push_str(&mut m, "document is not a PCB (no board_filename identifier)");
                Err(KiCadError::Protocol(m))
            },
        }
    }

    /// The number of copper layers of the board: KiCad's answer to one
    /// `GetBoardEnabledLayers` for the handle's document, or its error.
    pub fn get_copper_layer_count(&mut self) -> (r: Result<u32, KiCadError>)
        ensures
            final(self).document == old(self).document,
            final(self).client.history() == old(self).client.history().push(
                Exchange::GetBoardEnabledLayers(old(self).document, r),
            ),
    {
        self.client.get_board_enabled_layers(&self.document)
    }

    /// The names of the board's nets, skipping unnamed nets: one `GetNets`
    /// for the handle's document; its error is returned unchanged.
    pub fn get_net_names(&mut self) -> (r: Result<Vec<String>, KiCadError>)
        ensures
            final(self).document == old(self).document,
            exists|reply: Result<Seq<Seq<char>>, KiCadError>| {
                &&& final(self).client.history() == old(self).client.history().push(
                    Exchange::GetNets(old(self).document, reply),
                )
                &&& match reply {
                    Ok(nets) => r matches Ok(names) && texts(names@) == non_empty_names(nets),
                    Err(e) => r matches Err(e2) && e2 == e,
                }
            },
            r matches Ok(names) ==> forall|i: int| 0 <= i < names@.len() ==> (#[trigger] names@[i])@.len() > 0,
    {
        match self.client.get_nets(&self.document) {
            Ok(nets) => {
                let names = net_names_of(&nets);
                proof {
                    lemma_non_empty_names(texts(nets@));
                    assert forall|i: int| 0 <= i < names@.len() implies (#[trigger] names@[i])@.len() > 0 by {
                        assert(texts(names@)[i] == names@[i]@);
                    }
                }
                Ok(names)
            },
            Err(e) => Err(e),
        }
    }

    /// The distinct net classes in effect for `net_names`, sorted; a
    /// composite class contributes the explicit classes it merges. With no
    /// nets nothing is asked and the answer is empty; otherwise one
    /// `GetNetClassForNets` names the nets in order, and its error is
    /// returned unchanged.
    pub fn get_effective_net_classes(&mut self, net_names: &[String]) -> (r: Result<Vec<String>, KiCadError>)
        ensures
            final(self).document == old(self).document,
            net_names@.len() == 0 ==> (r matches Ok(v) && v@.len() == 0),
            net_names@.len() == 0 ==> final(self).client == old(self).client,
            net_names@.len() > 0 ==> exists|reply: Result<Seq<NetClass>, KiCadError>| {
                &&& final(self).client.history() == old(self).client.history().push(
                    Exchange::GetNetClassForNets(texts(net_names@), reply),
                )
                &&& match reply {
                    Ok(cs) => r matches Ok(v) && is_effective_classes(texts(v@), cs),
                    Err(e) => r matches Err(e2) && e2 == e,
                }
            },
            r matches Ok(v) ==> strictly_sorted(texts(v@)),
    {
        if net_names.len() == 0 {
            return Ok(Vec::new());
        }
        let mut nets: Vec<String> = Vec::new();
        let mut i: usize = 0;
        while i < net_names.len()
            invariant
                i <= net_names@.len(),
                nets@.len() == i,
                forall|k: int| 0 <= k < i ==> (#[trigger] nets@[k])@ == net_names@[k]@,
            decreases net_names.len() - i,
        {
            nets.push(net_names[i].clone());
            i = i + 1;
        }
        assert(texts(nets@) =~= texts(net_names@));
        match self.client.get_net_class_for_nets(&nets) {
            Ok(classes) => Ok(effective_net_classes(&classes)),
            Err(e) => Err(e),
        }
    }

    /// The bounding box of the board's edge-cut graphics [nm]: the shapes
    /// one `GetItems` for the handle's document reports, reduced by
    /// [`edge_cut_bbox_nm`]; none when no shape on `Edge.Cuts` has usable
    /// geometry. A reply whose item-request status is not OK is refused
    /// with a protocol error; the exchange's own error is returned
    /// unchanged.
    pub fn get_edge_cut_bbox_nm(&mut self) -> (r: Result<Option<EdgeBox>, KiCadError>)
        ensures
            final(self).document == old(self).document,
            exists|reply: Result<(i32, Seq<ShapeBox>), KiCadError>| {
                &&& final(self).client.history() == old(self).client.history().push(
                    Exchange::GetItems(old(self).document, reply),
                )
                &&& match reply {
                    Ok((status, shapes)) => if status == ITEM_REQUEST_OK {
                        r == Ok::<Option<EdgeBox>, KiCadError>(edge_union(shapes))
                    } else {
                        r matches Err(KiCadError::Protocol(m)) && m@ == items_status_message(status)
                    },
                    Err(e) => r matches Err(e2) && e2 == e,
                }
            },
    {
        match self.client.get_board_shapes(&self.document) {
            Ok(rep) => {
                if rep.status != ITEM_REQUEST_OK {
                    let mut m = String::new();
                    push_str(&mut m, "GetItems failed with ItemRequestStatus ");
                    push_int(&mut m, rep.status as i64);
                    return Err(KiCadError::Protocol(m));
                }
                Ok(edge_cut_bbox_nm(&rep.shapes))
            },
            Err(e) => Err(e),
        }
    }

    /// The board's grid or drill/place-file origin point [nm]: KiCad's
    /// answer to one `GetBoardOrigin` for the handle's document, or its
    /// error.
    pub fn get_board_origin(&mut self, origin_type: BoardOriginType) -> (r: Result<Vector2, KiCadError>)
        ensures
            final(self).document == old(self).document,
            final(self).client.history() == old(self).client.history().push(
                Exchange::GetBoardOrigin(old(self).document, origin_type, r),
            ),
    {
        self.client.get_board_origin(&self.document, origin_type)
    }
}

// ---------------------------------------------------------------------------
// Writing
// ---------------------------------------------------------------------------

/// A write that sends nothing: `attempted` items, none created.
pub open spec fn is_dry_result(res: WriteCoilsResult, attempted: nat) -> bool {
    &&& res.items_attempted == attempted as u32
    &&& res.items_created == 0
    &&& res.failures@.len() == 0
    &&& res.failure_summary@.len() == 0
}

fn dry_result(attempted: usize) -> (res: WriteCoilsResult)
    ensures
        is_dry_result(res, attempted as nat),
{
    WriteCoilsResult {
        items_attempted: attempted as u32,
        items_created: 0,
        failures: Vec::new(),
        failure_summary: Vec::new(),
    }
}

fn empty_message(action: CommitAction) -> (c: EndCommit)
    ensures
        c.action == commit_action_value(action),
        c.message@.len() == 0,
{
    EndCommit { id: None, action: commit_action_code(action), message: String::new() }
}

/// The result of a write of `attempted` items that KiCad answered with
/// `created`.
fn tally_write(attempted: usize, created: &Vec<ItemCreationResult>) -> (res: WriteCoilsResult)
    requires
        created@.len() <= u32::MAX,
    ensures
        res.items_attempted == attempted as u32,
        is_tally_of(res, created@),
{
    let (items_created, failures, failure_summary) = tally_item_results(created.as_slice());
    let res = WriteCoilsResult { items_attempted: attempted as u32, items_created, failures, failure_summary };
    proof {
        reveal(is_tally_of);
    }
    res
}

/// The exchanges of one write of `items` into `document`: a single commit
/// around a single `CreateItems` of all of them in that document, ended
/// with the commit's own id and an empty message, committed when KiCad
/// answered the creation and dropped otherwise; nothing follows a failed
/// `BeginCommit`. The write succeeds exactly when KiCad answered every
/// exchange with no more results than a `u32` counts, and then tallies
/// KiCad's answers; a failed `BeginCommit`, `CreateItems` or `EndCommit`
/// is returned unchanged.
pub open spec fn is_one_commit(
    sent: Seq<Exchange>,
    document: DocumentSpecifier,
    items: Seq<ItemView>,
    r: Result<WriteCoilsResult, KiCadError>,
) -> bool {
    if sent.len() == 1 {
        &&& sent[0] matches Exchange::BeginCommit(Err(e))
        &&& r matches Err(e2)
        &&& e2 == e
    } else {
        &&& sent.len() == 3
        &&& sent[0] matches Exchange::BeginCommit(Ok(id))
        &&& sent[1] matches Exchange::CreateItems(doc, sent_items, created)
        &&& sent[2] matches Exchange::EndCommit(end_id, action, message, ended)
        &&& doc == document
        &&& sent_items == items
        &&& end_id == Some(id)
        &&& message.len() == 0
        &&& action == commit_action_value(
            if created is Ok { CommitAction::CmaCommit } else { CommitAction::CmaDrop },
        )
        &&& (r is Ok <==> (created is Ok && ended is Ok && created->Ok_0.len() <= u32::MAX))
        &&& r matches Ok(res) ==> res.items_attempted == items.len() as u32 && is_tally_of(res, created->Ok_0)
        &&& created matches Err(e) ==> (r matches Err(e2) && e2 == e)
        &&& created is Ok ==> (ended matches Err(e) ==> (r matches Err(e2) && e2 == e))
    }
}

impl<'a, C: BoardClient> BoardHandle<'a, C> {
    /// Send `items` in one commit and tally KiCad's per-item answers. When
    /// the creation fails the commit is dropped and the error returned.
    fn commit_items(&mut self, items: &Vec<BoardItem>) -> (r: Result<WriteCoilsResult, KiCadError>)
        ensures
            final(self).document == old(self).document,
            extends(old(self).client.history(), final(self).client.history()),
            is_one_commit(
                sent_since(old(self).client.history(), final(self).client.history()),
                old(self).document,
                items_view(items@),
                r,
            ),
    {
        let ghost before = self.client.history();
        let id = match self.client.begin_commit() {
            Ok(id) => id,
            Err(e) => {
                proof {
                    assert(sent_since(before, self.client.history()) =~= seq![self.client.history().last()]);
                    assert(self.client.history().take(before.len() as int) =~= before);
                }
                return Err(e);
            },
        };
        let ghost h1 = self.client.history();
        let id_text = id.value.clone();
        let created = match self.client.create_items(items, &self.document) {
            Ok(c) => c,
            Err(e) => {
                let ghost h2 = self.client.history();
                let mut drop = empty_message(CommitAction::CmaDrop);
                drop.id = Some(id);
                let ended = self.client.end_commit(drop);
                proof {
                    let h = self.client.history();
                    assert(sent_since(before, h) =~= seq![h1.last(), h2.last(), h.last()]);
                    assert(h.take(before.len() as int) =~= before);
                }
                return Err(e);
            },
        };
        let ghost h2 = self.client.history();
        let mut end = empty_message(CommitAction::CmaCommit);
        end.id = Some(Kiid { value: id_text });
        let ended = self.client.end_commit(end);
        proof {
            let h = self.client.history();
            assert(sent_since(before, h) =~= seq![h1.last(), h2.last(), h.last()]);
            assert(h.take(before.len() as int) =~= before);
        }
        match ended {
            Ok(()) => {},
            Err(e) => return Err(e),
        }
        if created.len() > 4294967295 {
            let mut m = String::new();
            push_str(&mut m, "CreateItems answered more results than a write can count");
            return Err(KiCadError::Protocol(m));
        }
        let res = tally_write(items.len(), &created);
        proof {
            assert(items_view(items@).len() == items@.len());
        }
        Ok(res)
    }

    /// Write coils to the board in one commit (one undo step): the items of
    /// [`coils_to_board_items`], created in the handle's document, then
    /// KiCad's per-item outcomes tallied.
    pub fn write_coils(
        &mut self,
        coils: &[PhaseCoil],
        num_layers: u32,
        rules: &DesignRules,
        active_area_length_nm: i64,
    ) -> (r: Result<WriteCoilsResult, KiCadError>)
        requires
            rules.in_range(),
            coils_in_range(coils@),
        ensures
            final(self).document == old(self).document,
            extends(old(self).client.history(), final(self).client.history()),
            is_one_commit(
                sent_since(old(self).client.history(), final(self).client.history()),
                old(self).document,
                coils_items(coils@, num_layers, *rules, active_area_length_nm as int),
                r,
            ),
    {
        self.write_coils_inner(coils, num_layers, rules, active_area_length_nm, false)
    }

    /// Count the items a coil write would send, without touching KiCad.
    pub fn write_coils_dry_run(
        &mut self,
        coils: &[PhaseCoil],
        num_layers: u32,
        rules: &DesignRules,
        active_area_length_nm: i64,
    ) -> (r: Result<WriteCoilsResult, KiCadError>)
        requires
            rules.in_range(),
            coils_in_range(coils@),
        ensures
            r matches Ok(res) && is_dry_result(
                res,
                coils_items(coils@, num_layers, *rules, active_area_length_nm as int).len(),
            ),
            final(self).client == old(self).client,
            final(self).document == old(self).document,
    {
        self.write_coils_inner(coils, num_layers, rules, active_area_length_nm, true)
    }

    /// Shared body of [`Self::write_coils`] and [`Self::write_coils_dry_run`]:
    /// a dry run returns the item count before any exchange with KiCad.
    fn write_coils_inner(
        &mut self,
        coils: &[PhaseCoil],
        num_layers: u32,
        rules: &DesignRules,
        active_area_length_nm: i64,
        dry_run: bool,
    ) -> (r: Result<WriteCoilsResult, KiCadError>)
        requires
            rules.in_range(),
            coils_in_range(coils@),
        ensures
            ({
                let items = coils_items(coils@, num_layers, *rules, active_area_length_nm as int);
                &&& dry_run ==> (r matches Ok(res) && is_dry_result(res, items.len()))
                &&& dry_run ==> final(self).client == old(self).client
                &&& final(self).document == old(self).document
                &&& extends(old(self).client.history(), final(self).client.history())
                &&& !dry_run ==> is_one_commit(
                    sent_since(old(self).client.history(), final(self).client.history()),
                    old(self).document,
                    items,
                    r,
                )
            }),
    {
        let items = coils_to_board_items(coils, num_layers, rules, active_area_length_nm);
        proof {
            assert(items_view(items@).len() == items@.len());
            assert(self.client.history().take(self.client.history().len() as int) =~= self.client.history());
        }
        if dry_run {
            return Ok(dry_result(items.len()));
        }
        self.commit_items(&items)
    }

    /// Write the IO elements of a routing result (pads and fanout traces) in
    /// one commit: the items of [`io_elements_to_board_items`], created in
    /// the handle's document. With no IO elements nothing is sent.
    pub fn write_io_elements(
        &mut self,
        result: &RoutingResult,
        num_layers: u32,
        rules: &DesignRules,
        active_area_length_nm: i64,
    ) -> (r: Result<WriteCoilsResult, KiCadError>)
        requires
            result.in_range(),
        ensures
            ({
                let items = io_items(*result, num_layers, *rules, half_away(active_area_length_nm as int));
                &&& final(self).document == old(self).document
                &&& extends(old(self).client.history(), final(self).client.history())
                &&& items.len() == 0 ==> (r matches Ok(res) && is_dry_result(res, 0))
                &&& items.len() == 0 ==> final(self).client == old(self).client
                &&& items.len() > 0 ==> is_one_commit(
                    sent_since(old(self).client.history(), final(self).client.history()),
                    old(self).document,
                    items,
                    r,
                )
            }),
    {
        self.write_io_inner(result, num_layers, rules, active_area_length_nm, false)
    }

    /// Count the IO items a write would send, without touching KiCad.
    pub fn write_io_elements_dry_run(
        &mut self,
        result: &RoutingResult,
        num_layers: u32,
        rules: &DesignRules,
        active_area_length_nm: i64,
    ) -> (r: Result<WriteCoilsResult, KiCadError>)
        requires
            result.in_range(),
        ensures
            r matches Ok(res) && is_dry_result(
                res,
                io_items(*result, num_layers, *rules, half_away(active_area_length_nm as int)).len(),
            ),
            final(self).client == old(self).client,
            final(self).document == old(self).document,
    {
        self.write_io_inner(result, num_layers, rules, active_area_length_nm, true)
    }

    /// Shared body of the IO writes: a dry run, or an empty IO set, returns
    /// the item count before any exchange with KiCad.
    fn write_io_inner(
        &mut self,
        result: &RoutingResult,
        num_layers: u32,
        rules: &DesignRules,
        active_area_length_nm: i64,
        dry_run: bool,
    ) -> (r: Result<WriteCoilsResult, KiCadError>)
        requires
            result.in_range(),
        ensures
            ({
                let items = io_items(*result, num_layers, *rules, half_away(active_area_length_nm as int));
                &&& (dry_run || items.len() == 0) ==> (r matches Ok(res) && is_dry_result(res, items.len()))
                &&& (dry_run || items.len() == 0) ==> final(self).client == old(self).client
                &&& final(self).document == old(self).document
                &&& extends(old(self).client.history(), final(self).client.history())
                &&& !(dry_run || items.len() == 0) ==> is_one_commit(
                    sent_since(old(self).client.history(), final(self).client.history()),
                    old(self).document,
                    items,
                    r,
                )
            }),
    {
        let items = io_elements_to_board_items(result, num_layers, rules, active_area_length_nm);
        proof {
            assert(items_view(items@).len() == items@.len());
            assert(self.client.history().take(self.client.history().len() as int) =~= self.client.history());
        }
        if dry_run || items.len() == 0 {
            return Ok(dry_result(items.len()));
        }
        self.commit_items(&items)
    }
}

/// The named nets a `GetNets` exchange answered, none when it failed.
pub open spec fn named_nets(e: Exchange) -> Seq<Seq<char>> {
    match e {
        Exchange::GetNets(_, Ok(nets)) => non_empty_names(nets),
        _ => seq![],
    }
}

/// The copper layer count a `GetBoardEnabledLayers` exchange answered, 0
/// when it failed.
pub open spec fn layer_count_answered(e: Exchange) -> u32 {
    match e {
        Exchange::GetBoardEnabledLayers(_, Ok(n)) => n,
        _ => 0,
    }
}

/// The edge-cut box of the shapes a `GetItems` exchange answered, none
/// when it failed or its item-request status was not OK.
pub open spec fn edge_box_answered(e: Exchange) -> Option<EdgeBox> {
    match e {
        Exchange::GetItems(_, Ok((status, shapes))) => if status == ITEM_REQUEST_OK {
            edge_union(shapes)
        } else {
            None
        },
        _ => None,
    }
}

/// The classes a `GetNetClassForNets` exchange answered, none when it
/// failed.
pub open spec fn classes_answered(e: Exchange) -> Option<Seq<NetClass>> {
    match e {
        Exchange::GetNetClassForNets(_, Ok(cs)) => Some(cs),
        _ => None,
    }
}

/// The exchanges of a diagnostics snapshot of `document`, in order: its
/// layer count, its graphics, its nets, and then the net classes of the
/// named nets, asked only when there are some.
pub open spec fn is_diagnostics_exchange(sent: Seq<Exchange>, document: DocumentSpecifier) -> bool {
    &&& sent.len() >= 3
    &&& sent[0] matches Exchange::GetBoardEnabledLayers(d0, _)
    &&& sent[1] matches Exchange::GetItems(d1, _)
    &&& sent[2] matches Exchange::GetNets(d2, _)
    &&& d0 == document
    &&& d1 == document
    &&& d2 == document
    &&& if named_nets(sent[2]).len() > 0 {
        &&& sent.len() == 4
        &&& sent[3] matches Exchange::GetNetClassForNets(asked, _)
        &&& asked == named_nets(sent[2])
    } else {
        sent.len() == 3
    }
}

/// Query the open board for a diagnostics snapshot. Each field degrades to
/// its neutral value when its query fails: an empty name, 0 layers, an
/// all-zero bounding box, no net classes; the snapshot itself never fails.
/// A board without named nets asks for no net classes.
pub fn get_board_diagnostics<C: BoardClient>(board: &mut BoardHandle<'_, C>) -> (r: Result<BoardDiagnostics, KiCadError>)
    ensures
        r is Ok,
        final(board).document == old(board).document,
        extends(old(board).client.history(), final(board).client.history()),
        ({
            let sent = sent_since(old(board).client.history(), final(board).client.history());
            &&& is_diagnostics_exchange(sent, old(board).document)
            &&& r matches Ok(d) && {
                &&& match old(board).document.identifier {
                    Some(DocumentIdentifier::BoardFilename(n)) => d.board_name@ == n@,
                    None => d.board_name@.len() == 0,
                }
                &&& d.copper_layer_count == layer_count_answered(sent[0])
                &&& match edge_box_answered(sent[1]) {
                    Some(b) => d.board_x_min_nm == b.x_min_nm && d.board_x_max_nm == b.x_max_nm
                        && d.board_y_min_nm == b.y_min_nm && d.board_y_max_nm == b.y_max_nm,
                    None => d.board_x_min_nm == 0 && d.board_x_max_nm == 0 && d.board_y_min_nm == 0
                        && d.board_y_max_nm == 0,
                }
                &&& strictly_sorted(texts(d.available_net_classes@))
                &&& if sent.len() == 4 {
                    match classes_answered(sent[3]) {
                        Some(cs) => is_effective_classes(texts(d.available_net_classes@), cs),
                        None => d.available_net_classes@.len() == 0,
                    }
                } else {
                    d.available_net_classes@.len() == 0
                }
            }
        }),
{
    let ghost log0 = board.client.history();
    let board_name = match board.name() {
        Ok(n) => n,
        Err(_) => String::new(),
    };
    let copper_layer_count = match board.get_copper_layer_count() {
        Ok(n) => n,
        Err(_) => 0,
    };
    let ghost log1 = board.client.history();
    let (board_x_min_nm, board_x_max_nm, board_y_min_nm, board_y_max_nm) = match board.get_edge_cut_bbox_nm() {
        Ok(Some(b)) => (b.x_min_nm, b.x_max_nm, b.y_min_nm, b.y_max_nm),
        _ => (0, 0, 0, 0),
    };
    let ghost log2 = board.client.history();
    let available_net_classes = match board.get_net_names() {
        Ok(nets) => {
            proof {
                assert(named_nets(board.client.history().last()) == texts(nets@));
            }
            match board.get_effective_net_classes(nets.as_slice()) {
                Ok(classes) => classes,
                Err(_) => Vec::new(),
            }
        },
        Err(_) => Vec::new(),
    };
    proof {
        assert(texts(Seq::<String>::empty()) =~= Seq::<Seq<char>>::empty());
        let h = board.client.history();
        let sent = sent_since(log0, h);
        assert(sent[0] == log1.last());
        assert(sent[1] == log2.last());
        assert(sent[2] == h[log2.len() as int]);
        assert(h.take(log0.len() as int) =~= log0);
    }
    Ok(BoardDiagnostics {
        board_name,
        copper_layer_count,
        board_x_min_nm,
        board_x_max_nm,
        board_y_min_nm,
        board_y_max_nm,
        available_net_classes,
    })
}

/// When KiCad answers one result per item sent, the rejections a write
/// reports add up to the items it sent minus the items KiCad created, and
/// the rejection messages are the first of them.
pub proof fn lemma_rejections_recoverable(res: WriteCoilsResult, created: Seq<ItemCreationResult>)
    requires
        is_tally_of(res, created),
        res.items_attempted == created.len(),
    ensures
        res.items_attempted - res.items_created == summary_total(res.failure_summary@),
        res.failures@.len() == (if summary_total(res.failure_summary@) < MAX_FAILURES_TO_REPORT {
            summary_total(res.failure_summary@) as int
        } else {
            MAX_FAILURES_TO_REPORT as int
        }),
{
    reveal(is_tally_of);
    lemma_summary_accounts_for_every_item(created, res.failure_summary@);
    lemma_failure_texts_len(created);
    assert(res.failures@.map_values(|m: String| m@).len() == res.failures@.len());
}

/// Every name kept is non-empty.
pub proof fn lemma_non_empty_names(names: Seq<Seq<char>>)
    ensures
        forall|i: int| 0 <= i < non_empty_names(names).len() ==> (#[trigger] non_empty_names(names)[i]).len() > 0,
    decreases names.len(),
{
    if names.len() > 0 {
        lemma_non_empty_names(names.drop_last());
        let prev = non_empty_names(names.drop_last());
        if names.last().len() > 0 {
            assert forall|i: int| 0 <= i < prev.push(names.last()).len() implies (#[trigger] prev.push(
                names.last(),
            )[i]).len() > 0 by {
                if i < prev.len() {
                    assert(prev.push(names.last())[i] == prev[i]);
                }
            }
        }
    }
}

} // verus!
