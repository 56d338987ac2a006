//! The configuration that the driver gives to an operator.
use crate::ids::{uuid_text, NodeId, OperatorId, Uuid};
use vstd::prelude::*;
use vstd::string::StringExecFns;

verus! {

/// What the driver says about an operator when it connects it.
///
/// `id` is assigned when the operator is connected: whatever the driver puts
/// there is replaced.
pub struct OperatorConfig {
    /// The display name, if the driver gave one.
    pub name: Option<String>,
    /// The operator's identity.
    pub id: OperatorId,
    /// The node on which the operator runs.
    pub node_id: NodeId,
    /// The number of workers of a parallel operator, if the driver chose one.
    pub num_workers: Option<usize>,
    /// The file to which the operator's trace is written, if any.
    pub profile_file_name: Option<String>,
}

/// The mathematical value of an [`OperatorConfig`].
pub struct OperatorConfigView {
    pub name: Option<Seq<char>>,
    pub id: OperatorId,
    pub node_id: NodeId,
    pub num_workers: Option<usize>,
    pub profile_file_name: Option<Seq<char>>,
}

/// The text of an optional string.
pub open spec fn text_of(s: Option<String>) -> Option<Seq<char>> {
    match s {
        Some(s) => Some(s@),
        None => None,
    }
}

pub fn clone_text(s: &Option<String>) -> (copy: Option<String>)
    ensures
        copy == *s,
{
    match s {
        Some(s) => Some(s.clone()),
        None => None,
    }
}

impl View for OperatorConfig {
    type V = OperatorConfigView;

    open spec fn view(&self) -> OperatorConfigView {
        OperatorConfigView {
            name: text_of(self.name),
            id: self.id,
            node_id: self.node_id,
            num_workers: self.num_workers,
            profile_file_name: text_of(self.profile_file_name),
        }
    }
}

impl OperatorConfigView {
    /// The name under which the operator is shown: the one given, or else
    /// the text of its identity.
    pub open spec fn display_name(self) -> Seq<char> {
        match self.name {
            Some(name) => name,
            None => uuid_text(self.id.value as nat),
        }
    }
}

impl Clone for OperatorConfig {
    fn clone(&self) -> (copy: Self)
        ensures
            copy == *self,
    {
        OperatorConfig {
            name: clone_text(&self.name),
            id: self.id,
            node_id: self.node_id,
            num_workers: self.num_workers,
            profile_file_name: clone_text(&self.profile_file_name),
        }
    }
}

impl OperatorConfig {
    /// A configuration without a name, for node 0.
    pub fn new() -> (config: Self)
        ensures
            config@ == (OperatorConfigView {
                name: None,
                id: Uuid { value: 0 },
                node_id: 0,
                num_workers: None,
                profile_file_name: None,
            }),
    {
        OperatorConfig {
            name: None,
            id: Uuid::new(0),
            node_id: 0,
            num_workers: None,
            profile_file_name: None,
        }
    }

    /// Sets the display name.
    pub fn name(self, name: &str) -> (config: Self)
        ensures
            config@ == (OperatorConfigView { name: Some(name@), ..self@ }),
    {
        OperatorConfig {
            name: Some(String::from_str(name)),
            id: self.id,
            node_id: self.node_id,
            num_workers: self.num_workers,
            profile_file_name: self.profile_file_name,
        }
    }

    /// Sets the node on which the operator runs.
    pub fn node(self, node_id: NodeId) -> (config: Self)
        ensures
            config@ == (OperatorConfigView { node_id, ..self@ }),
    {
        OperatorConfig {
            name: self.name,
            id: self.id,
            node_id,
            num_workers: self.num_workers,
            profile_file_name: self.profile_file_name,
        }
    }

    /// Sets the number of workers of a parallel operator.
    pub fn workers(self, num_workers: usize) -> (config: Self)
        ensures
            config@ == (OperatorConfigView { num_workers: Some(num_workers), ..self@ }),
    {
        OperatorConfig {
            name: self.name,
            id: self.id,
            node_id: self.node_id,
            num_workers: Some(num_workers),
            profile_file_name: self.profile_file_name,
        }
    }

    /// Sets the file to which the operator's trace is written.
    pub fn profile_file(self, file_name: &str) -> (config: Self)
        ensures
            config@ == (OperatorConfigView { profile_file_name: Some(file_name@), ..self@ }),
    {
        OperatorConfig {
            name: self.name,
            id: self.id,
            node_id: self.node_id,
            num_workers: self.num_workers,
            profile_file_name: Some(String::from_str(file_name)),
        }
    }

    /// The name under which the operator is shown.
    pub fn get_name(&self) -> (name: String)
        ensures
            name@ == self@.display_name(),
    {
        match &self.name {
            Some(name) => name.clone(),
            None => self.id.to_text(),
        }
    }
}

} // verus!
