//! Finding the tracks under a folder: each file found becomes a `Crawler`
//! that records its path and its extension (its format).
use vstd::prelude::*;
use crate::text::split_last;

verus! {

/// One entry that walking a directory tree yielded.
pub struct FileEntry {
    /// The entry's path, as displayed.
    pub path: String,
    /// Whether the entry is a regular file (not a directory or other node).
    pub is_file: bool,
}

/// A folder to crawl, or a track found in one: its path and format.
#[derive(Clone, Debug)]
pub struct Crawler {
    pub path: String,
    pub format: String,
}

/// The directory that a crawl of `path` walks: `path` under the current
/// directory, `./` followed by `path`.
pub open spec fn walk_root_spec(path: Seq<char>) -> Seq<char> {
    seq!['.', '/'] + path
}

/// The tracks that a crawl finds among `entries`: each regular file, in
/// order, as its path and its format, the part of the path after its last `.`.
pub open spec fn crawled(entries: Seq<FileEntry>) -> Seq<(Seq<char>, Seq<char>)>
    decreases entries.len(),
{
    if entries.len() == 0 {
        Seq::empty()
    } else {
        let rest = crawled(entries.drop_last());
        let e = entries.last();
        if e.is_file {
            rest.push((e.path@, crate::text::after_last(e.path@, '.')))
        } else {
            rest
        }
    }
}

/// Whether a walk entry is a regular file.
pub open spec fn regular_file() -> spec_fn(FileEntry) -> bool {
    |e: FileEntry| e.is_file
}

/// Every regular file of a walk becomes a track, and nothing else does:
/// there are as many tracks as regular files, and the regular file at walk
/// position `i` is the track at position "number of regular files before
/// `i`", with its own path and its extension as format.
pub proof fn lemma_crawl_lists_every_file(entries: Seq<FileEntry>)
    ensures
        crawled(entries).len() == entries.filter(regular_file()).len(),
        forall|i: int|
            #![trigger entries[i]]
            0 <= i < entries.len() && entries[i].is_file ==> {
                let k = entries.take(i).filter(regular_file()).len() as int;
                &&& 0 <= k < crawled(entries).len()
                &&& crawled(entries)[k] == (
                    entries[i].path@,
                    crate::text::after_last(entries[i].path@, '.'),
                )
            },
    decreases entries.len(),
{
    reveal(Seq::filter);
    if entries.len() > 0 {
        let init = entries.drop_last();
        let n = entries.len() as int;
        lemma_crawl_lists_every_file(init);
        assert(entries.filter(regular_file()) == (if entries.last().is_file {
            init.filter(regular_file()).push(entries.last())
        } else {
            init.filter(regular_file())
        }));
        assert forall|i: int|
            #![trigger entries[i]]
            0 <= i < n && entries[i].is_file implies {
                let k = entries.take(i).filter(regular_file()).len() as int;
                &&& 0 <= k < crawled(entries).len()
                &&& crawled(entries)[k] == (
                    entries[i].path@,
                    crate::text::after_last(entries[i].path@, '.'),
                )
            } by {
            if i < n - 1 {
                assert(entries.take(i) =~= init.take(i));
                assert(entries[i] == init[i]);
            } else {
                assert(entries.take(i) =~= init);
            }
        }
    }
}

impl Crawler {
    /// A crawler for the folder `path`, with no format yet.
    pub fn new(path: String) -> (res: Self)
        ensures
            res.path@ == path@,
            res.format@ == Seq::<char>::empty(),
    {
        Self { path: path, format: String::new() }
    }

    /// The directory that crawling walks: `./` followed by the folder path.
    pub fn walk_root(&self) -> (res: String)
        ensures
            res@ == walk_root_spec(self.path@),
    {
        let mut root = String::from_str("./");
        proof {
            reveal_strlit("./");
        }
        root.append(self.path.as_str());
        root
    }

    /// The tracks among the entries that walking the folder yielded: one
    /// crawler per regular file, in the order of the walk, holding the
    /// file's path and its extension as format. Directories and other
    /// entries are skipped.
    pub fn crawl(&mut self, entries: Vec<FileEntry>) -> (res: Vec<Crawler>)
        ensures
            final(self).path@ == old(self).path@,
            final(self).format@ == old(self).format@,
            res@.len() == crawled(entries@).len(),
            forall|i: int|
                0 <= i < res@.len() ==> (#[trigger] res@[i]).path@ == crawled(entries@)[i].0
                    && res@[i].format@ == crawled(entries@)[i].1,
            res@.len() == entries@.filter(regular_file()).len(),
            forall|i: int|
                #![trigger entries@[i]]
                0 <= i < entries@.len() && entries@[i].is_file ==> {
                    let k = entries@.take(i).filter(regular_file()).len() as int;
                    &&& 0 <= k < res@.len()
                    &&& res@[k].path@ == entries@[i].path@
                    &&& res@[k].format@ == crate::text::after_last(entries@[i].path@, '.')
                },
    {
        proof {
            lemma_crawl_lists_every_file(entries@);
        }
        let mut collect: Vec<Crawler> = Vec::new();
        let n = entries.len();
        let mut i: usize = 0;
        while i < n
            invariant
                n == entries@.len(),
                i <= n,
                self.path@ == old(self).path@,
                self.format@ == old(self).format@,
                collect@.len() == crawled(entries@.subrange(0, i as int)).len(),
                forall|k: int|
                    0 <= k < collect@.len() ==> (#[trigger] collect@[k]).path@ == crawled(
                        entries@.subrange(0, i as int),
                    )[k].0 && collect@[k].format@ == crawled(entries@.subrange(0, i as int))[k].1,
            decreases n - i,
        {
            proof {
                let next = entries@.subrange(0, i + 1);
                assert(next.drop_last() =~= entries@.subrange(0, i as int));
                assert(next.last() == entries@[i as int]);
            }
            let entry = &entries[i];
            if entry.is_file {
                let parsed_path = entry.path.clone();
                let format = self.get_extension(&parsed_path);
                collect.push(Crawler { path: parsed_path, format });
            }
            i = i + 1;
        }
        assert(entries@.subrange(0, n as int) =~= entries@);
        collect
    }

    /// The extension of `path`: the part after its last `.`, or all of
    /// `path` when it holds no `.`.
    pub fn get_extension(&mut self, path: &String) -> (res: String)
        ensures
            final(self).path@ == old(self).path@,
            final(self).format@ == old(self).format@,
            res@ == crate::text::after_last(path@, '.'),
            !res@.contains('.'),
    {
        split_last(path.as_str(), '.')
    }
}

} // verus!
