use crate::merkle_hash::{hash_from_hex, hash_of_text, is_hash_text, sha3_256_of, MerkleHash};
use crate::merkle_tree::{hashed_leaves, MerkleTree};
use crate::merkle_tree_error::MerkleTreeError;
use crate::proof_of_inclusion::ProofOfInclusion;
use crate::tree_model::{add_leaf, build_levels, first_index, path_of};
use vstd::prelude::*;
use vstd::slice::slice_to_vec;
use vstd::string::StringSliceAdditionalSpecFns;
use vstd::utf8::encode_utf8;

verus! {

/// The words of a command line as a POSIX shell splits them, or `None` where
/// its quoting is invalid.
pub uninterp spec fn shell_words_of(line: Seq<char>) -> Option<Seq<Seq<char>>>;

/// Relies on `shlex::split`: the words of the line as a POSIX shell splits
/// them, or `None` where the quoting is invalid; the result depends on the
/// line alone.
#[verifier::external_body]
fn shell_split(line: &str) -> (r: Option<Vec<String>>)
    ensures
        r is None <==> shell_words_of(line@) is None,
        r is Some ==> r->0@.map_values(|w: String| w@) == shell_words_of(line@)->0,
{
    shlex::split(line)
}

/// The lines of a text, as `str::lines` splits it.
pub uninterp spec fn lines_of(text: Seq<char>) -> Seq<Seq<char>>;

/// A text without its leading and trailing white space, as `str::trim` cuts it.
pub uninterp spec fn trim_of(text: Seq<char>) -> Seq<char>;

/// Relies on `str::lines`: the lines of the text, split at each line feed,
/// with a carriage return before it dropped and no line after a final line
/// feed; the result depends on the text alone.
#[verifier::external_body]
fn text_lines(text: &str) -> (r: Vec<String>)
    ensures
        r@.map_values(|l: String| l@) == lines_of(text@),
{
    text.lines().map(|l| l.to_string()).collect()
}

/// Relies on `str::trim`: the text without leading and trailing white space;
/// the result depends on the text alone.
#[verifier::external_body]
fn trimmed(text: &str) -> (r: &str)
    ensures
        r@ == trim_of(text@),
{
    text.trim()
}

/// The trimmed lines of a text that are not empty, in order.
pub open spec fn elements_of(lines: Seq<Seq<char>>) -> Seq<Seq<char>>
    decreases lines.len(),
{
    if lines.len() == 0 {
        seq![]
    } else if trim_of(lines.last()).len() == 0 {
        elements_of(lines.drop_last())
    } else {
        elements_of(lines.drop_last()).push(trim_of(lines.last()))
    }
}

/// The bytes of a text element.
pub open spec fn text_bytes(s: String) -> Seq<u8> {
    encode_utf8(s@)
}

/// Whether every element spells a hash.
pub open spec fn all_hash_texts(elements: Seq<String>) -> bool {
    forall|i: int| 0 <= i < elements.len() ==> is_hash_text(text_bytes(#[trigger] elements[i]))
}

/// Whether `hashes` are the hashes that `elements` spell, in order.
pub open spec fn spells_hashes(elements: Seq<String>, hashes: Seq<MerkleHash>) -> bool {
    &&& hashes.len() == elements.len()
    &&& forall|i: int|
        0 <= i < elements.len() ==> (#[trigger] hashes[i])@ == hash_of_text(text_bytes(elements[i]))
}

/// The hashes of the elements taken as data.
pub open spec fn hashed_texts(elements: Seq<String>) -> Seq<MerkleHash> {
    elements.map_values(|e: String| sha3_256_of(text_bytes(e)))
}

/// Whether `leaf` is the hash at `index` of `leaves`, or anywhere in them
/// when no index is given.
pub open spec fn found_at(leaves: Seq<MerkleHash>, leaf: MerkleHash, index: Option<u32>) -> bool {
    match index {
        Some(i) => i < leaves.len() && leaves[i as int] == leaf,
        None => leaves.contains(leaf),
    }
}

/// The state of an interactive session: the tree that its commands work on.
pub struct CLI {
    tree: MerkleTree,
}

impl View for CLI {
    type V = Seq<Seq<MerkleHash>>;

    closed spec fn view(&self) -> Seq<Seq<MerkleHash>> {
        self.tree@
    }
}

impl CLI {
    /// A session over the tree of one empty data item.
    pub fn new() -> (r: Self)
        ensures
            r@ == build_levels(seq![sha3_256_of(seq![])]),
    {
        let data: Vec<Vec<u8>> = vec![Vec::new()];
        let ghost data_view = data@;
        let built = MerkleTree::new_from_hashables(data);
        let tree = built.unwrap();
        proof {
            assert(hashed_leaves(data_view) =~= seq![sha3_256_of(seq![])]);
        }
        CLI { tree }
    }

    /// A session over the given tree.
    pub fn new_from_tree(tree: MerkleTree) -> (r: Self)
        ensures
            r@ == tree@,
    {
        CLI { tree }
    }

    /// The tree of the session.
    pub fn tree(&self) -> (r: &MerkleTree)
        ensures
            r@ == self@,
    {
        &self.tree
    }

    /// The words of a command line, or `None` where its quoting is invalid.
    pub fn get_commands(line: &str) -> (r: Option<Vec<String>>)
        ensures
            r is None <==> shell_words_of(line@) is None,
            r is Some ==> r->0@.map_values(|w: String| w@) == shell_words_of(line@)->0,
    {
        shell_split(line)
    }

    /// The elements listed in a text: one per line, trimmed, blank lines left out.
    pub fn parse_elements(contents: &str) -> (r: Vec<String>)
        ensures
            r@.map_values(|e: String| e@) == elements_of(lines_of(contents@)),
    {
        let lines = text_lines(contents);
        let ghost all = lines_of(contents@);
        let mut elements: Vec<String> = Vec::new();
        let mut i: usize = 0;
        while i < lines.len()
            invariant
                0 <= i <= lines@.len(),
                lines@.map_values(|l: String| l@) == all,
                elements@.map_values(|e: String| e@) == elements_of(all.take(i as int)),
            decreases lines@.len() - i,
        {
            let line = trimmed(lines[i].as_str());
            let ghost before = elements@;
            if !line.is_empty() {
                elements.push(line.to_owned());
                proof {
                    assert(elements@.map_values(|e: String| e@) =~= before.map_values(
                        |e: String| e@,
                    ).push(line@));
                }
            }
            proof {
                assert(all.take(i + 1).drop_last() =~= all.take(i as int));
                assert(all.take(i + 1).last() == lines@[i as int]@);
            }
            i = i + 1;
        }
        proof {
            assert(all.take(lines@.len() as int) =~= all);
        }
        elements
    }

    /// Replaces the tree by one over the elements: their hashes when `hash`
    /// holds, else the hashes that they spell. On an error the tree stays.
    pub fn handle_create_tree(&mut self, elements: Vec<String>, hash: bool) -> (r: Result<
        (),
        MerkleTreeError,
    >)
        ensures
            hash ==> (r is Err <==> elements@.len() == 0),
            !hash ==> (r is Err <==> (elements@.len() == 0 || !all_hash_texts(elements@))),
            r is Err ==> final(self)@ == old(self)@,
            r is Err && elements@.len() == 0 ==> r->Err_0 is FailedToBuild,
            r is Err && elements@.len() > 0 ==> r->Err_0 is InvalidHash,
            r is Ok && hash ==> final(self)@ == build_levels(hashed_texts(elements@)),
            r is Ok && !hash ==> exists|hashes: Seq<MerkleHash>|
                spells_hashes(elements@, hashes) && final(self)@ == build_levels(hashes),
    {
        let mut hashes: Vec<MerkleHash> = Vec::new();
        let mut i: usize = 0;
        while i < elements.len()
            invariant
                0 <= i <= elements@.len(),
                hash ==> hashes@ =~= hashed_texts(elements@).take(i as int),
                !hash ==> spells_hashes(elements@.take(i as int), hashes@),
                !hash ==> all_hash_texts(elements@.take(i as int)),
            decreases elements@.len() - i,
        {
            let bytes = elements[i].as_str().as_bytes();
            if hash {
                hashes.push(MerkleTree::get_hash_of(bytes));
            } else {
                match hash_from_hex(elements[i].as_str()) {
                    Some(h) => {
                        hashes.push(h);
                    },
                    None => {
                        proof {
                            assert(!all_hash_texts(elements@));
                        }
                        return Err(MerkleTreeError::InvalidHash("Not the text of a hash".to_string()));
                    },
                }
            }
            proof {
                assert(elements@.take(i + 1).drop_last() =~= elements@.take(i as int));
            }
            i = i + 1;
        }
        assert(elements@.take(elements@.len() as int) =~= elements@);
        assert(hashed_texts(elements@).take(elements@.len() as int) =~= hashed_texts(elements@));
        match MerkleTree::new_from_hashes(hashes) {
            Ok(tree) => {
                self.tree = tree;
                Ok(())
            },
            Err(e) => Err(e),
        }
    }

    /// Whether the hash that `elem` spells is a leaf of the tree, at `index`
    /// when one is given.
    pub fn handle_verify_inclusion(&self, elem: &str, index: Option<u32>) -> (r: bool)
        ensures
            r == (is_hash_text(elem.spec_bytes()) && exists|h: MerkleHash|
                h@ == hash_of_text(elem.spec_bytes()) && found_at(self@[0], h, index)),
    {
        let leaf = match hash_from_hex(elem) {
            Some(leaf) => leaf,
            None => return false,
        };
        let r = match index {
            Some(i) => self.tree.verify_with_index(&leaf, i),
            None => self.tree.verify(&leaf),
        };
        proof {
            if !r {
                assert forall|h: MerkleHash|
                    h@ == hash_of_text(elem.spec_bytes()) implies !found_at(self@[0], h, index) by {
                    assert(h =~= leaf);
                }
            }
        }
        r
    }

    /// The proof of inclusion of the hash that `elem` spells: of the leaf at
    /// `index` when one is given, else of its first occurrence.
    pub fn handle_proof_of_inclusion(&self, elem: &str, index: Option<u32>) -> (r: Result<
        ProofOfInclusion,
        MerkleTreeError,
    >)
        ensures
            r is Ok <==> (is_hash_text(elem.spec_bytes()) && exists|h: MerkleHash|
                h@ == hash_of_text(elem.spec_bytes()) && found_at(self@[0], h, index)),
            r is Err ==> r->Err_0 is InvalidHash,
            r is Ok ==> r->Ok_0.leaf_hash()@ == hash_of_text(elem.spec_bytes()),
            r is Ok ==> r->Ok_0.entries() == path_of(
                self@[0],
                match index {
                    Some(i) => i as int,
                    None => first_index(self@[0], r->Ok_0.leaf_hash()),
                },
            ),
    {
        let leaf = match hash_from_hex(elem) {
            Some(leaf) => leaf,
            None => return Err(MerkleTreeError::InvalidHash("Not the text of a hash".to_string())),
        };
        let r = match index {
            Some(i) => self.tree.proof_of_inclusion_with_index(&leaf, i),
            None => self.tree.proof_of_inclusion(&leaf),
        };
        proof {
            if r is Err {
                assert forall|h: MerkleHash|
                    h@ == hash_of_text(elem.spec_bytes()) implies !found_at(self@[0], h, index) by {
                    assert(h =~= leaf);
                }
            }
        }
        r
    }

    /// Appends to the tree the hash of `elem` when `hash` holds, else the hash
    /// that it spells.
    pub fn handle_add_element(&mut self, elem: &str, hash: bool) -> (r: Result<(), MerkleTreeError>)
        ensures
            !hash && !is_hash_text(elem.spec_bytes()) ==> r is Err && r->Err_0 is InvalidHash,
            hash ==> (r is Err <==> old(self)@[0].contains(sha3_256_of(elem.spec_bytes()))),
            hash && r is Ok ==> final(self)@ == build_levels(
                add_leaf(old(self)@[0], sha3_256_of(elem.spec_bytes())),
            ),
            !hash && is_hash_text(elem.spec_bytes()) ==> exists|h: MerkleHash|
                h@ == hash_of_text(elem.spec_bytes()) && (r is Err <==> old(self)@[0].contains(h))
                    && (r is Ok ==> final(self)@ == build_levels(add_leaf(old(self)@[0], h))),
            r is Err ==> final(self)@ == old(self)@,
            r is Err && (hash || is_hash_text(elem.spec_bytes())) ==> r->Err_0 is HashAlreadyExists,
    {
        if hash {
            self.tree.add_data(elem.as_bytes())
        } else {
            match hash_from_hex(elem) {
                Some(leaf) => {
                    let r = self.tree.add_hash(leaf);
                    assert(leaf@ == hash_of_text(elem.spec_bytes()) && (r is Err <==> old(
                        self,
                    )@[0].contains(leaf)) && (r is Ok ==> self@ == build_levels(
                        add_leaf(old(self)@[0], leaf),
                    )));
                    r
                },
                None => Err(MerkleTreeError::InvalidHash("Not the text of a hash".to_string())),
            }
        }
    }
}

} // verus!
