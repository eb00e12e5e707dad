//! Which files of the migrations directory are run against the database:
//! those whose extension is `sql`.

use vstd::prelude::*;
use vstd::string::*;
use crate::text::{chars_of, is_last_index, rfind_char, same_text};

verus! {

broadcast use vstd::string::group_string_axioms;

/// The extension of a file called `name`, as `Path::extension` finds it:
/// the part after the last `.`; none when there is no `.`, when the only
/// `.` opens the name, or for `..`.
pub open spec fn extension_spec(name: Seq<char>) -> Option<Seq<char>> {
    if name == ".."@ || !name.contains('.') {
        None
    } else {
        let i = choose|i: int| is_last_index(name, '.', i);
        if i == 0 {
            None
        } else {
            Some(name.skip(i + 1))
        }
    }
}

/// A name made of a non-empty stem, a `.` and a tail without `.` has that
/// tail as its extension, however long the name; so `stem.sql` is a
/// migration for every such stem. (`..` alone is the one exception, as in
/// `Path::extension`.)
pub proof fn law_extension_is_text_after_last_dot(stem: Seq<char>, ext: Seq<char>)
    requires
        stem.len() > 0,
        !ext.contains('.'),
        !(stem == seq!['.'] && ext.len() == 0),
    ensures
        extension_spec(stem + seq!['.'] + ext) == Some(ext),
        extension_spec(stem + seq!['.', 's', 'q', 'l']) == Some(seq!['s', 'q', 'l']),
{
    lemma_extension_after_last_dot(stem, ext);
    assert(!seq!['s', 'q', 'l'].contains('.')) by {
        if seq!['s', 'q', 'l'].contains('.') {
            let k = choose|k: int| 0 <= k < 3 && seq!['s', 'q', 'l'][k] == '.';
        }
    }
    lemma_extension_after_last_dot(stem, seq!['s', 'q', 'l']);
    assert(stem + seq!['.'] + seq!['s', 'q', 'l'] =~= stem + seq!['.', 's', 'q', 'l']);
}

proof fn lemma_extension_after_last_dot(stem: Seq<char>, ext: Seq<char>)
    requires
        stem.len() > 0,
        !ext.contains('.'),
        !(stem == seq!['.'] && ext.len() == 0),
    ensures
        extension_spec(stem + seq!['.'] + ext) == Some(ext),
{
    let name = stem + seq!['.'] + ext;
    let i = stem.len() as int;
    reveal_strlit("..");
    assert(name != ".."@) by {
        if name == ".."@ {
            assert(name.len() == 2);
            assert(stem.len() == 1 && ext.len() == 0);
            assert(stem[0] == name[0]);
            assert(stem =~= seq!['.']);
        }
    }
    assert(name[i] == '.');
    assert(name.contains('.'));
    assert(is_last_index(name, '.', i)) by {
        assert forall|k: int| i < k < name.len() implies name[k] != '.' by {
            assert(name[k] == ext[k - i - 1]);
        }
    }
    let j = choose|j: int| is_last_index(name, '.', j);
    assert(j == i) by {
        if j < i {
            assert(name[i] != '.');
        } else if j > i {
            assert(name[j] != '.');
        }
    }
    assert(name.skip(i + 1) =~= ext);
}

/// The extension of a file called `name`.
pub fn file_extension(name: &str) -> (res: Option<String>)
    ensures
        match res {
            Some(ext) => extension_spec(name@) == Some(ext@),
            None => extension_spec(name@) is None,
        },
{
    if same_text(name, "..") {
        return None;
    }
    let chars = chars_of(name);
    match rfind_char(&chars, '.') {
        None => None,
        Some(i) => {
            proof {
                assert(name@.contains('.')) by {
                    assert(name@[i as int] == '.');
                }
                let j = choose|j: int| is_last_index(name@, '.', j);
                assert(j == i) by {
                    if j < i {
                        assert(name@[i as int] != '.');
                    } else if j > i {
                        assert(name@[j] != '.');
                    }
                }
            }
            assert(i < chars.len());
            if i == 0 {
                None
            } else {
                let ext = name.substring_char(i + 1, chars.len());
                assert(ext@ =~= name@.skip(i + 1));
                Some(String::from_str(ext))
            }
        },
    }
}

/// Whether a file called `name` holds a migration: its extension is `sql`.
pub fn is_migration_file(name: &str) -> (res: bool)
    ensures
        res == (extension_spec(name@) == Some("sql"@)),
{
    match file_extension(name) {
        Some(ext) => same_text(ext.as_str(), "sql"),
        None => false,
    }
}

} // verus!
