//! What a transfer is going to do.
use vstd::prelude::*;

use crate::text::views;

verus! {

/// The work of one transfer, found before anything is changed.
#[derive(Debug)]
pub struct Queue {
    /// The directories to make at the target.
    pub dir_queue: Vec<String>,
    /// The files to copy, by their paths at the source.
    pub file_queue: Vec<String>,
    /// The files to delete at the target.
    pub del_queue: Vec<String>,
    /// How many of the files to copy the target does not have.
    pub add: u64,
    /// How many of the files to copy are newer than at the target.
    pub change: u64,
    /// How many files to delete.
    pub del: u64,
    /// By how much the target grows, in KiB.
    pub total_size: i64,
}

/// A `Queue` in mathematical terms.
#[verifier::ext_equal]
pub struct QueueModel {
    pub dirs: Seq<Seq<char>>,
    pub files: Seq<Seq<char>>,
    pub dels: Seq<Seq<char>>,
    pub add: int,
    pub change: int,
    pub del: int,
    pub size: int,
}

impl View for Queue {
    type V = QueueModel;

    open spec fn view(&self) -> QueueModel {
        QueueModel {
            dirs: views(self.dir_queue@),
            files: views(self.file_queue@),
            dels: views(self.del_queue@),
            add: self.add as int,
            change: self.change as int,
            del: self.del as int,
            size: self.total_size as int,
        }
    }
}

impl QueueModel {
    /// Nothing to do.
    pub open spec fn empty() -> QueueModel {
        QueueModel {
            dirs: seq![],
            files: seq![],
            dels: seq![],
            add: 0,
            change: 0,
            del: 0,
            size: 0,
        }
    }

    /// The counts are those of the lists, and no file is deleted twice.
    pub open spec fn consistent(self) -> bool {
        &&& 0 <= self.add
        &&& 0 <= self.change
        &&& self.add + self.change == self.files.len()
        &&& self.del == self.dels.len()
        &&& self.dels.no_duplicates()
    }
}

impl Queue {
    /// A queue with nothing to do.
    pub fn new() -> (queue: Queue)
        ensures
            queue@ == QueueModel::empty(),
    {
        let queue = Queue {
            dir_queue: Vec::new(),
            file_queue: Vec::new(),
            del_queue: Vec::new(),
            add: 0,
            change: 0,
            del: 0,
            total_size: 0,
        };
        assert(queue@ =~= QueueModel::empty());
        queue
    }
}

} // verus!
