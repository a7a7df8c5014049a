//! The first folder crawler: lists the paths of the files under a folder,
//! with a table of folders that it starts out empty.
use vstd::prelude::*;
use std::collections::HashMap;
use crate::backend::folder_crawler::FileEntry;

verus! {

/// A folder to crawl.
#[derive(Clone, Debug)]
pub struct Crawler {
    pub folders: HashMap<String, Vec<String>>,
    pub path: String,
}

/// The paths of the regular files among `entries`, in order.
pub open spec fn file_paths(entries: Seq<FileEntry>) -> Seq<Seq<char>>
    decreases entries.len(),
{
    if entries.len() == 0 {
        Seq::empty()
    } else {
        let rest = file_paths(entries.drop_last());
        if entries.last().is_file {
            rest.push(entries.last().path@)
        } else {
            rest
        }
    }
}

/// Every regular file of a walk is listed, and nothing else is: there are
/// as many paths as regular files, and the regular file at walk position `i`
/// is listed at position "number of regular files before `i`".
pub proof fn lemma_file_paths_lists_every_file(entries: Seq<FileEntry>)
    ensures
        file_paths(entries).len() == entries.filter(crate::backend::folder_crawler::regular_file()).len(),
        forall|i: int|
            #![trigger entries[i]]
            0 <= i < entries.len() && entries[i].is_file ==> {
                let k = entries.take(i).filter(crate::backend::folder_crawler::regular_file()).len() as int;
                &&& 0 <= k < file_paths(entries).len()
                &&& file_paths(entries)[k] == entries[i].path@
            },
    decreases entries.len(),
{
    reveal(Seq::filter);
    if entries.len() > 0 {
        let init = entries.drop_last();
        let n = entries.len() as int;
        lemma_file_paths_lists_every_file(init);
        assert(entries.filter(crate::backend::folder_crawler::regular_file()) == (if entries.last().is_file {
            init.filter(crate::backend::folder_crawler::regular_file()).push(entries.last())
        } else {
            init.filter(crate::backend::folder_crawler::regular_file())
        }));
        assert forall|i: int|
            #![trigger entries[i]]
            0 <= i < n && entries[i].is_file implies {
                let k = entries.take(i).filter(crate::backend::folder_crawler::regular_file()).len() as int;
                &&& 0 <= k < file_paths(entries).len()
                &&& file_paths(entries)[k] == entries[i].path@
            } by {
            if i < n - 1 {
                assert(entries.take(i) =~= init.take(i));
                assert(entries[i] == init[i]);
            } else {
                assert(entries.take(i) =~= init);
            }
        }
    }
}

impl Crawler {
    /// A crawler for the folder `path`, with an empty folder table.
    pub fn new(path: String) -> (res: Self)
        ensures
            res.folders@ == Map::<String, Vec<String>>::empty(),
            res.path@ == path@,
    {
        Self { folders: HashMap::new(), path: path }
    }

    /// The directory that crawling walks: `./` followed by the folder path.
    pub fn walk_root(&self) -> (res: String)
        ensures
            res@ == crate::backend::folder_crawler::walk_root_spec(self.path@),
    {
        let mut root = String::from_str("./");
        proof {
            reveal_strlit("./");
        }
        root.append(self.path.as_str());
        root
    }

    /// The paths of the regular files among the entries that walking the
    /// folder yielded, in the order of the walk.
    pub fn crawl(&mut self, entries: Vec<FileEntry>) -> (res: Vec<String>)
        ensures
            final(self).path@ == old(self).path@,
            final(self).folders@ == old(self).folders@,
            res@.len() == file_paths(entries@).len(),
            forall|i: int| 0 <= i < res@.len() ==> (#[trigger] res@[i])@ == file_paths(entries@)[i],
            res@.len() == entries@.filter(crate::backend::folder_crawler::regular_file()).len(),
            forall|i: int|
                #![trigger entries@[i]]
                0 <= i < entries@.len() && entries@[i].is_file ==> {
                    let k = entries@.take(i).filter(crate::backend::folder_crawler::regular_file()).len() as int;
                    &&& 0 <= k < res@.len()
                    &&& res@[k]@ == entries@[i].path@
                },
    {
        proof {
            lemma_file_paths_lists_every_file(entries@);
        }
        let mut collect: Vec<String> = Vec::new();
        let n = entries.len();
        let mut i: usize = 0;
        while i < n
            invariant
                n == entries@.len(),
                i <= n,
                collect@.len() == file_paths(entries@.subrange(0, i as int)).len(),
                forall|k: int|
                    0 <= k < collect@.len() ==> (#[trigger] collect@[k])@ == file_paths(
                        entries@.subrange(0, i as int),
                    )[k],
            decreases n - i,
        {
            proof {
                let next = entries@.subrange(0, i + 1);
                assert(next.drop_last() =~= entries@.subrange(0, i as int));
                assert(next.last() == entries@[i as int]);
            }
            if entries[i].is_file {
                collect.push(entries[i].path.clone());
            }
            i = i + 1;
        }
        assert(entries@.subrange(0, n as int) =~= entries@);
        collect
    }
}


/// Both crawlers find the same files: the paths that this crawler lists are
/// the paths of the tracks that `backend::folder_crawler::Crawler::crawl`
/// returns, in the same order.
pub proof fn lemma_crawlers_agree(entries: Seq<FileEntry>)
    ensures
        file_paths(entries).len() == crate::backend::folder_crawler::crawled(entries).len(),
        forall|i: int|
            0 <= i < file_paths(entries).len() ==> #[trigger] file_paths(entries)[i]
                == crate::backend::folder_crawler::crawled(entries)[i].0,
    decreases entries.len(),
{
    if entries.len() > 0 {
        lemma_crawlers_agree(entries.drop_last());
    }
}

} // verus!
