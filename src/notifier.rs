//! What the cleaner hands to a notifier.

use vstd::prelude::*;

use crate::dyson::{ImagesSummary, RepositoryTags};

verus! {

/// An error of a notifier.
#[derive(Debug)]
pub struct NotificationError {
    /// What went wrong, as text.
    pub source: String,
}

impl NotificationError {
    pub fn new(source: String) -> (r: NotificationError)
        ensures
            r.source@ == source@,
    {
        NotificationError { source }
    }
}

/// A message to send: a title and the deletion plan it reports on.
#[derive(Debug)]
pub struct Message {
    /// The title of the message.
    pub title: String,
    /// The plan the message reports on.
    pub summary: ImagesSummary,
}

impl Message {
    pub fn new(title: &str, summary: ImagesSummary) -> (r: Message)
        ensures
            r.title@ == title@,
            r.summary == summary,
    {
        Message { title: title.to_owned(), summary }
    }

    /// The repositories of the plan, each with its number of images.
    pub fn counts(&self) -> (r: Vec<(String, usize)>)
        ensures
            r@.len() == self.summary@.len(),
            forall|k: int|
                0 <= k < r@.len() ==> (#[trigger] r@[k]).0@ == self.summary@[k].repository_name@
                    && r@[k].1 == self.summary@[k].image_tags@.len(),
    {
        let mut out: Vec<(String, usize)> = Vec::new();
        let mut k: usize = 0;
        while k < self.summary.len()
            invariant
                k <= self.summary@.len(),
                out@.len() == k,
                forall|m: int|
                    0 <= m < k ==> (#[trigger] out@[m]).0@ == self.summary@[m].repository_name@
                        && out@[m].1 == self.summary@[m].image_tags@.len(),
            decreases self.summary@.len() - k,
        {
            let entry: &RepositoryTags = &self.summary[k];
            out.push((entry.repository_name.clone(), entry.image_tags.len()));
            k = k + 1;
        }
        out
    }
}

} // verus!
