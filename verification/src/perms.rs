//! Where the data lies, and who may read it.
use crate::search::{join_path, joined_path};
use crate::text;
use vstd::prelude::*;

verus! {

/// The files and directories of the archive.
#[derive(Debug, Clone)]
pub struct DataPaths {
    pub root: String,
    pub db: String,
    pub state: String,
    pub frames: String,
    pub crops: String,
}

impl DataPaths {
    /// The files and directories of an archive below a directory.
    pub fn bare(root: &str) -> (r: Self)
        ensures
            r.root@ == root@,
            r.db@ == joined_path(root@, "rewind.db"@),
            r.state@ == joined_path(root@, "state.json"@),
            r.frames@ == joined_path(root@, "frames"@),
            r.crops@ == joined_path(root@, "crops"@),
    {
        DataPaths {
            root: root.to_string(),
            db: join_path(root, "rewind.db"),
            state: join_path(root, "state.json"),
            frames: join_path(root, "frames"),
            crops: join_path(root, "crops"),
        }
    }
}

/// A setting of the environment says something.
pub open spec fn given(v: Option<String>) -> bool {
    v matches Some(s) && s@.len() > 0
}

/// What a setting of the environment says.
pub open spec fn setting(v: Option<String>) -> Option<Seq<char>> {
    match v {
        Some(s) => Some(s@),
        None => None,
    }
}

/// The directory of the archive, by what is asked for, the directory of the user's
/// data and the user's home.
pub open spec fn data_dir(asked: Option<Seq<char>>, data_home: Option<Seq<char>>, home: Option<Seq<char>>) -> Seq<char> {
    if asked matches Some(s) && s.len() > 0 {
        asked.unwrap()
    } else if data_home matches Some(s) && s.len() > 0 {
        joined_path(data_home.unwrap(), "rewind"@)
    } else {
        joined_path(
            match home {
                Some(h) => h,
                None => "/tmp"@,
            },
            ".local/share/rewind"@,
        )
    }
}

/// The directory of the archive: the one asked for, else the one below the
/// user's data, else the one below the user's home.
pub fn default_data_dir(asked: &Option<String>, data_home: &Option<String>, home: &Option<String>) -> (r: String)
    ensures
        r@ == data_dir(setting(*asked), setting(*data_home), setting(*home)),
        r@ == (if given(*asked) {
            asked.unwrap()@
        } else if given(*data_home) {
            joined_path(data_home.unwrap()@, "rewind"@)
        } else {
            joined_path(
                match *home {
                    Some(h) => h@,
                    None => "/tmp"@,
                },
                ".local/share/rewind"@,
            )
        }),
{
    if let Some(s) = asked {
        proof {
            crate::lookup::lemma_bytes_in(s@);
        }
        if text::byte_len(s.as_str()) > 0 {
            return s.clone();
        }
    }
    if let Some(s) = data_home {
        proof {
            crate::lookup::lemma_bytes_in(s@);
        }
        if text::byte_len(s.as_str()) > 0 {
            return join_path(s.as_str(), "rewind");
        }
    }
    match home {
        Some(h) => join_path(h.as_str(), ".local/share/rewind"),
        None => join_path("/tmp", ".local/share/rewind"),
    }
}

/// The mode that a file or a directory of the archive has: only its owner may
/// use it.
pub open spec fn owner_only(dir: bool) -> int {
    if dir {
        0o700
    } else {
        0o600
    }
}

/// The mode that a file or a directory of the archive has.
pub fn private_mode(dir: bool) -> (r: u32)
    ensures
        r == owner_only(dir),
{
    if dir {
        0o700
    } else {
        0o600
    }
}

/// A mode, but for its type and its special bits, lets the owner alone use a
/// file or a directory.
pub fn is_private(mode: u32, dir: bool) -> (r: bool)
    ensures
        r == (mode as int % 512 == owner_only(dir)),
{
    mode % 512 == private_mode(dir)
}

/// What is kept is for its owner alone: the owner may read and write it, and go
/// into a directory; nobody else may do anything.
pub proof fn law_nobody_else_may_look(dir: bool)
    ensures
        owner_only(dir) % 0o100 == 0,
        owner_only(dir) / 0o100 == (if dir { 7int } else { 6int }),
{
}

/// The directory that is asked for counts before that of the user's data, and that
/// before the user's home; a setting that says nothing counts as none.
pub proof fn law_where_the_archive_lies(a: Seq<char>, d: Option<Seq<char>>, data: Seq<char>, h: Option<Seq<char>>, home: Seq<char>)
    requires
        a.len() > 0,
        data.len() > 0 && data.last() != '/',
        home.len() > 0 && home.last() != '/',
    ensures
        data_dir(Some(a), d, h) == a,
        data_dir(None, Some(data), h) == data + "/rewind"@,
        data_dir(Some(""@), Some(data), h) == data + "/rewind"@,
        data_dir(None, None, Some(home)) == home + "/.local/share/rewind"@,
        data_dir(None, Some(""@), Some(home)) == home + "/.local/share/rewind"@,
        data_dir(None, None, None) == "/tmp/.local/share/rewind"@,
{
    reveal_strlit("");
    reveal_strlit("rewind");
    reveal_strlit("/rewind");
    reveal_strlit("/tmp");
    reveal_strlit(".local/share/rewind");
    reveal_strlit("/.local/share/rewind");
    reveal_strlit("/tmp/.local/share/rewind");
    assert(data.push('/') + "rewind"@ =~= data + "/rewind"@);
    assert(home.push('/') + ".local/share/rewind"@ =~= home + "/.local/share/rewind"@);
    assert("/tmp"@.push('/') + ".local/share/rewind"@ =~= "/tmp/.local/share/rewind"@);
}

} // verus!
