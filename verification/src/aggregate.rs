use vstd::prelude::*;

use crate::json::{json_doc, json_wf, merge, merged, parse_json, JVal, Json};
use vstd::string::StrSliceExecFns;

verus! {

/// A directory entry handed to the aggregator: the entry's file name and the
/// file's text.
pub struct SourceFile {
    pub name: String,
    pub content: String,
}

/// A single malformed document aborts a whole aggregation pass.
#[derive(Debug)]
pub struct AggregateError {
    /// The file whose text did not parse.
    pub file: String,
    /// The parser's complaint about its content.
    pub message: String,
}

/// The aggregator's extension test on an entry name: a dot must stand after
/// the first character, and the part after the last dot must be exactly
/// `json` (case-sensitive).
pub open spec fn is_json_name(n: Seq<char>) -> bool {
    n.len() >= 6 && n[n.len() - 5] == '.' && n[n.len() - 4] == 'j' && n[n.len() - 3] == 's' && n[
        n.len() - 2
    ] == 'o' && n[n.len() - 1] == 'n'
}

/// The view of a file list: names and contents as character sequences.
pub open spec fn files_view(s: Seq<SourceFile>) -> Seq<(Seq<char>, Seq<char>)> {
    s.map_values(|f: SourceFile| (f.name@, f.content@))
}

/// A qualifying entry whose text does not parse as one JSON document.
pub open spec fn is_bad(f: (Seq<char>, Seq<char>)) -> bool {
    is_json_name(f.0) && json_doc(f.1) is None
}

/// Every qualifying entry of the list parses.
pub open spec fn all_good(fs: Seq<(Seq<char>, Seq<char>)>) -> bool {
    forall|i: int| 0 <= i < fs.len() ==> !is_bad(#[trigger] fs[i])
}

/// What aggregation yields: from a null tree, each entry named `*.json` is
/// parsed and deep-merged in list order; other entries are skipped; nothing
/// if some qualifying entry does not parse.
pub open spec fn merged_docs(fs: Seq<(Seq<char>, Seq<char>)>) -> Option<JVal>
    decreases fs.len(),
{
    if fs.len() == 0 {
        Some(JVal::Null)
    } else {
        match merged_docs(fs.drop_last()) {
            None => None,
            Some(acc) => {
                if !is_json_name(fs.last().0) {
                    Some(acc)
                } else {
                    match json_doc(fs.last().1) {
                        None => None,
                        Some(d) => Some(merged(acc, d)),
                    }
                }
            },
        }
    }
}

fn is_json_file(name: &String) -> (r: bool)
    ensures
        r == is_json_name(name@),
{
    let s = name.as_str();
    let len = s.unicode_len();
    if len < 6 {
        return false;
    }
    s.get_char(len - 5) == '.' && s.get_char(len - 4) == 'j' && s.get_char(len - 3) == 's'
        && s.get_char(len - 2) == 'o' && s.get_char(len - 1) == 'n'
}

/// Merge every `.json` document of a directory listing into one tree, in
/// list order, later documents winning on conflicting leaves; fail on the
/// first qualifying file whose text does not parse.
pub fn parse_and_merge(files: &Vec<SourceFile>) -> (r: Result<Json, AggregateError>)
    ensures
        r is Ok <==> all_good(files_view(files@)),
        r matches Ok(j) ==> Some(j@) == merged_docs(files_view(files@)) && json_wf(j),
        r matches Err(e) ==> exists|i: int|
            0 <= i < files@.len() && is_bad(#[trigger] files_view(files@)[i]) && e.file@
                == files_view(files@)[i].0 && forall|j: int|
                0 <= j < i ==> !is_bad(#[trigger] files_view(files@)[j]),
{
    let ghost fv = files_view(files@);
    let mut acc = Json::Null;
    let mut i: usize = 0;
    while i < files.len()
        invariant
            i <= files@.len(),
            fv == files_view(files@),
            fv.len() == files@.len(),
            json_wf(acc),
            merged_docs(fv.take(i as int)) == Some(acc@),
            forall|j: int| 0 <= j < i ==> !is_bad(#[trigger] fv[j]),
        decreases files@.len() - i,
    {
        let ghost pre = acc@;
        proof {
            assert(fv[i as int] == (files@[i as int].name@, files@[i as int].content@));
            assert(fv.take(i as int + 1).drop_last() =~= fv.take(i as int));
            assert(fv.take(i as int + 1).last() == fv[i as int]);
        }
        if is_json_file(&files[i].name) {
            match parse_json(files[i].content.as_str()) {
                Ok(d) => {
                    acc = merge(acc, d);
                    proof {
                        assert(merged_docs(fv.take(i as int + 1)) == Some(merged(
                            pre,
                            json_doc(fv[i as int].1)->Some_0,
                        )));
                    }
                },
                Err(msg) => {
                    return Err(
                        AggregateError { file: files[i].name.clone(), message: msg },
                    );
                },
            }
        }
        i = i + 1;
    }
    proof {
        assert(fv.take(fv.len() as int) =~= fv);
    }
    Ok(acc)
}

} // verus!
