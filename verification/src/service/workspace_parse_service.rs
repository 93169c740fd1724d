//! Every tag of each scanned file, read once and shared by the services.
use vstd::prelude::*;
use vstd::string::StringExecFns;

use crate::anchor::{parse_anchors, spec_parse_anchors, ParsedAnchor};
use crate::entity::{parse_entity_declarations, spec_parse_declarations, ParsedEntityDeclaration};
use crate::tep_tag::{
    anchor_tags_of, entity_tags_of, fits, parse_anchor_tags, parse_entity_tags,
    parse_relation_tags, relation_tags_of, spec_parse_tags, text_fits, ParsedAnchorTag,
    ParsedEntityTag, ParsedRelationTag,
};
use crate::tep_tag::strings_view;
use crate::utils::workspace_scanner::WorkspaceFile;

verus! {

#[derive(Debug, Clone)]
pub struct ParsedWorkspaceFile {
    pub file: WorkspaceFile,
    pub entity_tags: Vec<ParsedEntityTag>,
    pub relation_tags: Vec<ParsedRelationTag>,
    pub anchor_tags: Vec<ParsedAnchorTag>,
    pub parsed_anchors: Vec<ParsedAnchor>,
    pub parsed_declarations: Vec<ParsedEntityDeclaration>,
}

/// `p` holds the tags of `content`, read from `file`.
pub open spec fn parsed_from(p: ParsedWorkspaceFile, file: WorkspaceFile, content: Seq<char>) -> bool {
    let tags = spec_parse_tags(content);
    &&& p.file == file
    &&& Seq::new(p.entity_tags@.len(), |i: int| p.entity_tags@[i]@) == entity_tags_of(tags)
    &&& Seq::new(p.relation_tags@.len(), |i: int| p.relation_tags@[i]@) == relation_tags_of(tags)
    &&& Seq::new(p.anchor_tags@.len(), |i: int| p.anchor_tags@[i]@) == anchor_tags_of(tags)
    &&& Seq::new(p.parsed_anchors@.len(), |i: int| p.parsed_anchors@[i]@) == spec_parse_anchors(
        content,
    )
    &&& Seq::new(p.parsed_declarations@.len(), |i: int| p.parsed_declarations@[i]@)
        == spec_parse_declarations(content)
}

/// The tags of one file's text.
pub fn parse_workspace_file(file: WorkspaceFile, content: &str) -> (p: ParsedWorkspaceFile)
    requires
        fits(content@),
    ensures
        parsed_from(p, file, content@),
{
    ParsedWorkspaceFile {
        parsed_anchors: parse_anchors(content),
        parsed_declarations: parse_entity_declarations(content),
        entity_tags: parse_entity_tags(content),
        relation_tags: parse_relation_tags(content),
        anchor_tags: parse_anchor_tags(content),
        file,
    }
}

/// The warning for a file that could not be read.
pub open spec fn unreadable_warning(file: WorkspaceFile, reason: Seq<char>) -> Seq<char> {
    "skipping unreadable file "@ + file.absolute_path@ + ": "@ + reason
}

/// The texts that were read, in order.
pub open spec fn read_texts(reads: Seq<(WorkspaceFile, Result<String, String>)>) -> Seq<
    (WorkspaceFile, Seq<char>),
>
    decreases reads.len(),
{
    if reads.len() == 0 {
        seq![]
    } else {
        let prev = read_texts(reads.drop_last());
        match reads.last().1 {
            Ok(t) => if fits(t@) {
                prev.push((reads.last().0, t@))
            } else {
                prev
            },
            Err(_) => prev,
        }
    }
}

/// The warnings for the files that could not be read (or, never for a
/// `String`, were too long to scan), in order.
pub open spec fn read_warnings(reads: Seq<(WorkspaceFile, Result<String, String>)>) -> Seq<Seq<char>>
    decreases reads.len(),
{
    if reads.len() == 0 {
        seq![]
    } else {
        let prev = read_warnings(reads.drop_last());
        match reads.last().1 {
            Ok(t) => if fits(t@) {
                prev
            } else {
                prev.push(unreadable_warning(reads.last().0, "file too large"@))
            },
            Err(e) => prev.push(unreadable_warning(reads.last().0, e@)),
        }
    }
}

/// The tags of every file that was read, and a warning for every file that
/// could not be: `reads` pairs each file with its text or the read error.
pub fn collect_parsed_workspace_files(reads: Vec<(WorkspaceFile, Result<String, String>)>) -> (r: (
    Vec<ParsedWorkspaceFile>,
    Vec<String>,
))
    ensures
        r.0@.len() == read_texts(reads@).len(),
        forall|i: int|
            0 <= i < r.0@.len() ==> parsed_from(
                #[trigger] r.0@[i],
                read_texts(reads@)[i].0,
                read_texts(reads@)[i].1,
            ),
        strings_view(r.1@) == read_warnings(reads@),
{
    let ghost all = reads@;
    let mut parsed: Vec<ParsedWorkspaceFile> = Vec::new();
    let mut warnings: Vec<String> = Vec::new();
    let mut rest = reads;
    let mut i: usize = 0;
    let n = rest.len();
    proof {
        assert(rest@ =~= all.skip(0));
        assert(all.take(0) =~= Seq::<(WorkspaceFile, Result<String, String>)>::empty());
        assert(strings_view(warnings@) =~= Seq::<Seq<char>>::empty());
    }
    while rest.len() > 0
        invariant
            n == all.len(),
            i <= n,
            rest@ == all.skip(i as int),
            parsed@.len() == read_texts(all.take(i as int)).len(),
            forall|k: int|
                0 <= k < parsed@.len() ==> parsed_from(
                    #[trigger] parsed@[k],
                    read_texts(all.take(i as int))[k].0,
                    read_texts(all.take(i as int))[k].1,
                ),
            strings_view(warnings@) == read_warnings(all.take(i as int)),
        decreases rest.len(),
    {
        let (file, read) = rest.remove(0);
        proof {
            assert(all.take(i + 1).drop_last() =~= all.take(i as int));
            assert(all.take(i + 1).last() == (file, read));
            assert(rest@ =~= all.skip(i + 1));
        }
        let ghost wb = strings_view(warnings@);
        let ghost tb = read_texts(all.take(i as int));
        match read {
            Ok(content) => {
                if text_fits(content.as_str()) {
                    let p = parse_workspace_file(file, content.as_str());
                    parsed.push(p);
                    proof {
                        assert(read_texts(all.take(i + 1)) == tb.push((file, content@)));
                    }
                } else {
                    let mut w = String::from_str("skipping unreadable file ");
                    w.append(file.absolute_path.as_str());
                    w.append(": ");
                    w.append("file too large");
                    warnings.push(w);
                    proof {
                        assert(strings_view(warnings@) =~= wb.push(
                            unreadable_warning(file, "file too large"@),
                        ));
                    }
                }
            },
            Err(e) => {
                let mut w = String::from_str("skipping unreadable file ");
                w.append(file.absolute_path.as_str());
                w.append(": ");
                w.append(e.as_str());
                warnings.push(w);
                proof {
                    assert(strings_view(warnings@) =~= wb.push(unreadable_warning(file, e@)));
                }
            },
        }
        i += 1;
    }
    proof {
        assert(all.take(n as int) =~= all);
    }
    (parsed, warnings)
}

/// A file whose read failed is reported with its error, and every text
/// that is parsed is the text read for some file, which is the file it is
/// parsed as.
pub proof fn lemma_reads_are_accounted_for(reads: Seq<(WorkspaceFile, Result<String, String>)>)
    ensures
        forall|j: int|
            0 <= j < reads.len() && (#[trigger] reads[j]).1 is Err ==> read_warnings(
                reads,
            ).contains(unreadable_warning(reads[j].0, reads[j].1->Err_0@)),
        forall|k: int|
            0 <= k < read_texts(reads).len() ==> exists|j: int|
                0 <= j < reads.len() && (#[trigger] reads[j]).0 == (#[trigger] read_texts(
                    reads,
                )[k]).0 && reads[j].1 is Ok && reads[j].1->Ok_0@ == read_texts(reads)[k].1,
    decreases reads.len(),
{
    if reads.len() > 0 {
        let init = reads.drop_last();
        let l = reads.len() - 1;
        lemma_reads_are_accounted_for(init);
        assert(reads[l] == reads.last());
        assert forall|j: int|
            0 <= j < reads.len() && (#[trigger] reads[j]).1 is Err implies read_warnings(
                reads,
            ).contains(unreadable_warning(reads[j].0, reads[j].1->Err_0@)) by {
            let w = unreadable_warning(reads[j].0, reads[j].1->Err_0@);
            if j < l {
                assert(init[j] == reads[j]);
                let prev = read_warnings(init);
                let m = choose|m: int| 0 <= m < prev.len() && prev[m] == w;
                assert(read_warnings(reads)[m] == w);
            } else {
                assert(read_warnings(reads) == read_warnings(init).push(w));
                assert(read_warnings(reads)[read_warnings(init).len() as int] == w);
            }
        }
        assert forall|k: int| 0 <= k < read_texts(reads).len() implies exists|j: int|
            0 <= j < reads.len() && (#[trigger] reads[j]).0 == (#[trigger] read_texts(reads)[k]).0
                && reads[j].1 is Ok && reads[j].1->Ok_0@ == read_texts(reads)[k].1 by {
            let prev = read_texts(init);
            if k < prev.len() {
                assert(read_texts(reads)[k] == prev[k]);
                let j = choose|j: int|
                    0 <= j < init.len() && (#[trigger] init[j]).0 == (#[trigger] prev[k]).0
                        && init[j].1 is Ok && init[j].1->Ok_0@ == prev[k].1;
                assert(init[j] == reads[j]);
            } else {
                assert(read_texts(reads)[k].0 == reads[l].0);
            }
        }
    }
}

} // verus!
