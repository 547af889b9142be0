//! The stored document.

use vstd::prelude::*;

verus! {

/// `serde_json::Value`: any JSON value. The store carries task records through
/// without reading them, so nothing is said of what one holds.
#[verifier::external_type_specification]
#[verifier::external_body]
pub struct ExJsonValue(serde_json::Value);

/// The single document that is stored: task records, which this layer does
/// not interpret, and the names of labels and stakeholders.
#[derive(Debug, Clone, PartialEq)]
pub struct TaskData {
    pub tasks: Vec<serde_json::Value>,
    pub labels: Vec<String>,
    pub stakeholders: Vec<String>,
}

impl TaskData {
    /// The document holds no task, no label and no stakeholder.
    pub open spec fn is_empty_document(&self) -> bool {
        &&& self.tasks@ == Seq::<serde_json::Value>::empty()
        &&& self.labels@ == Seq::<String>::empty()
        &&& self.stakeholders@ == Seq::<String>::empty()
    }

    /// Tells whether the document is the empty one.
    pub fn is_empty(&self) -> (empty: bool)
        ensures
            empty == self.is_empty_document(),
    {
        proof {
            assert(self.tasks@.len() == 0 ==> self.tasks@ =~= Seq::<serde_json::Value>::empty());
            assert(self.labels@.len() == 0 ==> self.labels@ =~= Seq::<String>::empty());
            assert(self.stakeholders@.len() == 0 ==> self.stakeholders@ =~= Seq::<
                String,
            >::empty());
        }
        self.tasks.len() == 0 && self.labels.len() == 0 && self.stakeholders.len() == 0
    }
}

impl Default for TaskData {
    /// The document of a store that was never written: three empty sequences.
    fn default() -> (doc: Self)
        ensures
            doc.is_empty_document(),
    {
        TaskData { tasks: Vec::new(), labels: Vec::new(), stakeholders: Vec::new() }
    }
}

} // verus!
