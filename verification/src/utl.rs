//! Lists of files: which files a table of selections names.

use vstd::prelude::*;
use vstd::utf8::encode_utf8;
use crate::error::EcozError;
use crate::text::concat;

verus! {

/// A row of a table of selections: the category (TRAIN or TEST), the class
/// and the number of a selection.
#[derive(Debug)]
pub struct TTRow {
    pub tt: String,
    pub class: String,
    pub selection: String,
}

/// The text ends with the bytes of `suffix`.
pub open spec fn spec_ends_with(text: Seq<u8>, suffix: Seq<u8>) -> bool {
    text.len() >= suffix.len() && text.subrange(text.len() - suffix.len(), text.len() as int)
        == suffix
}

/// The text ends with `suffix`.
pub fn ends_with(text: &str, suffix: &str) -> (r: bool)
    ensures
        r == spec_ends_with(encode_utf8(text@), encode_utf8(suffix@)),
{
    let bytes = text.as_bytes();
    let tail = suffix.as_bytes();
    if bytes.len() < tail.len() {
        return false;
    }
    let start: usize = bytes.len() - tail.len();
    let mut k: usize = 0;
    while k < tail.len()
        invariant
            k <= tail.len(),
            bytes@ == encode_utf8(text@),
            tail@ == encode_utf8(suffix@),
            start + tail.len() == bytes.len(),
            forall|m: int| 0 <= m < k ==> bytes@[start + m] == tail@[m],
        decreases tail.len() - k,
    {
        if bytes[start + k] != tail[k] {
            proof {
                let end = bytes@.subrange(bytes@.len() - tail@.len(), bytes@.len() as int);
                assert(end[k as int] == bytes@[start + k]);
                assert(end[k as int] != tail@[k as int]);
            }
            return false;
        }
        k += 1;
    }
    proof {
        let end = bytes@.subrange(bytes@.len() - tail@.len(), bytes@.len() as int);
        assert(end =~= tail@);
    }
    true
}

/// The files are given by a table of selections: the list holds one name,
/// and it ends with `.csv`.
pub fn is_tt_list(filenames: &Vec<String>) -> (r: bool)
    ensures
        r == (filenames.len() == 1 && spec_ends_with(
            encode_utf8(filenames[0]@),
            encode_utf8(".csv"@),
        )),
{
    filenames.len() == 1 && ends_with(filenames[0].as_str(), ".csv")
}

/// The row is of the category `tt` and, where a class is asked for, of that
/// class.
pub open spec fn is_selected(row: TTRow, tt: Seq<char>, class: Seq<char>) -> bool {
    row.tt@ == tt && (class.len() == 0 || row.class@ == class)
}

/// The name of the file of a row: `data/`, the directory, the class and the
/// selection, each followed by `/`, but for the selection, which the
/// extension follows.
pub open spec fn file_of(row: TTRow, subdir: Seq<char>, file_ext: Seq<char>) -> Seq<char> {
    "data/"@ + subdir + "/"@ + row.class@ + "/"@ + row.selection@ + file_ext
}

/// The names of the files of the rows selected among the first `upto`, in
/// the order of the rows.
pub open spec fn selected_files(
    rows: Seq<TTRow>,
    upto: int,
    tt: Seq<char>,
    class: Seq<char>,
    subdir: Seq<char>,
    file_ext: Seq<char>,
) -> Seq<Seq<char>>
    decreases upto,
{
    if upto <= 0 {
        Seq::empty()
    } else if is_selected(rows[upto - 1], tt, class) {
        selected_files(rows, upto - 1, tt, class, subdir, file_ext).push(
            file_of(rows[upto - 1], subdir, file_ext),
        )
    } else {
        selected_files(rows, upto - 1, tt, class, subdir, file_ext)
    }
}

/// The class asked for, or the empty text where none is.
pub open spec fn class_asked(class_name_opt: Option<String>) -> Seq<char> {
    match class_name_opt {
        Some(class) => class@,
        None => Seq::empty(),
    }
}

/// The texts of a list of names.
pub open spec fn texts(list: Seq<String>) -> Seq<Seq<char>> {
    Seq::new(list.len(), |i: int| list[i]@)
}

/// The files of the category `tt` (TRAIN or TEST) that the rows of a table of
/// selections name, of the class asked for or, where none or an empty one is
/// asked for, of all classes. A table that names no such file is refused.
pub fn get_files_from_csv(
    rows: &Vec<TTRow>,
    tt: &str,
    class_name_opt: &Option<String>,
    subdir: &str,
    file_ext: &str,
) -> (r: Result<Vec<String>, EcozError>)
    ensures
        ({
            let files = selected_files(
                rows@,
                rows.len() as int,
                tt@,
                class_asked(*class_name_opt),
                subdir@,
                file_ext@,
            );
            if files.len() == 0 {
                r == Err::<Vec<String>, EcozError>(EcozError::NoFilesGiven)
            } else {
                r is Ok && texts(r->Ok_0@) == files
            }
        }),
{
    let tt = tt.to_owned();
    let class = match class_name_opt {
        Some(class) => class.clone(),
        None => String::new(),
    };
    let mut list: Vec<String> = Vec::new();
    let mut k: usize = 0;
    while k < rows.len()
        invariant
            k <= rows.len(),
            class@ == class_asked(*class_name_opt),
            texts(list@) == selected_files(rows@, k as int, tt@, class@, subdir@, file_ext@),
        decreases rows.len() - k,
    {
        let row = &rows[k];
        let ghost before = list@;
        if row.tt == tt && (class.as_str().is_empty() || row.class == class) {
            let name = concat("data/", subdir);
            let name = concat(name.as_str(), "/");
            let name = concat(name.as_str(), row.class.as_str());
            let name = concat(name.as_str(), "/");
            let name = concat(name.as_str(), row.selection.as_str());
            let name = concat(name.as_str(), file_ext);
            list.push(name);
            assert(texts(list@) =~= texts(before).push(file_of(*row, subdir@, file_ext@)));
        }
        k += 1;
    }
    if list.len() == 0 {
        return Err(EcozError::NoFilesGiven);
    }
    Ok(list)
}

} // verus!
