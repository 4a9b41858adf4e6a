use stale_urls::git::{Command, Output, Reply};
use stale_urls::scan::{paths_in_listing, paths_of_reply, scan_tree};
use stale_urls::service::{Contents, Kind};
use stale_urls::tree::{read_tracked_path, CountedFiles, Disk, Files, NoFiles};
use stale_urls::{scan, scan_with, scan_with_counted};

const URL: &str = "https://github.com/o/r/blob/0123456789abcdef0123456789abcdef01234567/a.rs#L1";

fn finished(code: Option<i32>, stdout: &str, stderr: &str) -> Reply {
    Reply::Finished(Output {
        code,
        stdout: stdout.as_bytes().to_vec(),
        stderr: stderr.as_bytes().to_vec(),
    })
}

fn listing(list: &'static str) -> impl FnMut(&Command) -> Reply {
    move |command: &Command| {
        assert_eq!(command.repository, Some(b"root".to_vec()));
        assert_eq!(command.args, ["ls-files", "-z"]);
        assert!(command.target.is_none());
        finished(Some(0), list, "")
    }
}

fn no_link(_: &Vec<u8>) -> Kind {
    Ok(false)
}

fn no_link_is_read(_: &Vec<u8>) -> Contents {
    panic!("no link is read")
}

fn no_file_is_read(_: &Vec<u8>) -> Contents {
    panic!("no file is read")
}

fn no_git(_: &Command) -> Reply {
    panic!("Git is not run")
}

fn files<F: FnMut(&Vec<u8>) -> Contents>(
    read_file: F,
) -> Disk<impl FnMut(&Vec<u8>) -> Kind, impl FnMut(&Vec<u8>) -> Contents, F> {
    Disk { is_link: no_link, read_link: no_link_is_read, read_file }
}

#[test]
fn only_listed_files_are_read_and_all_places_are_kept() {
    let mut told = Vec::new();
    let mut read = Vec::new();
    let result = scan_with_counted(
        b"root",
        listing("one.txt\0target/two.txt\0"),
        files(|path: &Vec<u8>| {
            read.push(String::from_utf8(path.clone()).unwrap());
            match path.as_slice() {
                b"root/one.txt" => Ok(format!("x\n{URL}\n").into_bytes()),
                b"root/target/two.txt" => Ok(URL.as_bytes().to_vec()),
                _ => panic!("not tracked"),
            }
        }),
        |path: &Vec<u8>, index, total| told.push((path.clone(), index, total)),
    )
    .unwrap();
    assert!(result.errors.is_empty());
    assert_eq!(result.urls.len(), 1);
    assert_eq!(result.urls[0].url.text, URL);
    assert_eq!(result.urls[0].occurrences.len(), 2);
    assert_eq!(result.urls[0].occurrences[0].file, b"root/one.txt".to_vec());
    assert_eq!(result.urls[0].occurrences[0].line, 2);
    assert_eq!(result.urls[0].occurrences[1].file, b"root/target/two.txt".to_vec());
    assert_eq!(result.urls[0].occurrences[1].line, 1);
    assert_eq!(
        told,
        [(b"one.txt".to_vec(), 1, 2), (b"target/two.txt".to_vec(), 2, 2)]
    );
    assert_eq!(read, ["root/one.txt", "root/target/two.txt"]);
}

#[test]
fn scan_does_not_follow_tracked_symlinks() {
    let mut scanned = Vec::new();
    let mut asked = Vec::new();
    let mut read = Vec::new();
    let disk = Disk {
        is_link: |path: &Vec<u8>| -> Kind {
            asked.push(path.clone());
            Ok(true)
        },
        read_link: |path: &Vec<u8>| -> Contents {
            read.push(path.clone());
            Ok(b"untracked.txt".to_vec())
        },
        read_file: no_file_is_read,
    };
    let result = scan_with(b"root", listing("tracked-link\0"), disk, |path: &Vec<u8>| {
        scanned.push(path.clone())
    })
    .unwrap();
    assert!(result.errors.is_empty());
    assert!(result.urls.is_empty());
    assert_eq!(scanned, [b"tracked-link".to_vec()]);
    assert_eq!(asked, [b"root/tracked-link".to_vec()]);
    assert_eq!(read, [b"root/tracked-link".to_vec()]);
}

#[test]
fn the_value_of_a_link_is_searched() {
    let disk = Disk {
        is_link: |path: &Vec<u8>| -> Kind { Ok(path == b"root/link") },
        read_link: |path: &Vec<u8>| -> Contents {
            assert_eq!(path, b"root/link");
            Ok(URL.as_bytes().to_vec())
        },
        read_file: |path: &Vec<u8>| -> Contents {
            assert_eq!(path, b"root/file");
            Ok(format!("\n\n{URL}").into_bytes())
        },
    };
    let result = scan(b"root", listing("file\0link\0"), disk).unwrap();
    assert!(result.errors.is_empty());
    assert_eq!(result.urls.len(), 1);
    assert_eq!(result.urls[0].occurrences.len(), 2);
    assert_eq!(result.urls[0].occurrences[0].file, b"root/file".to_vec());
    assert_eq!(result.urls[0].occurrences[0].line, 3);
    assert_eq!(result.urls[0].occurrences[1].file, b"root/link".to_vec());
    assert_eq!(result.urls[0].occurrences[1].line, 1);
}

#[test]
fn a_path_of_unknown_kind_is_reported_and_not_read() {
    let disk = Disk {
        is_link: |_: &Vec<u8>| -> Kind { Err("not found".to_owned()) },
        read_link: no_link_is_read,
        read_file: no_file_is_read,
    };
    let result = scan(b"root", listing("gone\0"), disk).unwrap();
    assert!(result.urls.is_empty());
    assert_eq!(result.errors, ["root/gone: not found"]);
}

#[test]
fn links_that_cannot_be_read_are_reported() {
    let disk = Disk {
        is_link: |_: &Vec<u8>| -> Kind { Ok(true) },
        read_link: |_: &Vec<u8>| -> Contents { Err("permission denied".to_owned()) },
        read_file: no_file_is_read,
    };
    let result = scan(b"root", listing("link\0"), disk).unwrap();
    assert!(result.urls.is_empty());
    assert_eq!(result.errors, ["root/link: permission denied"]);
}

#[test]
fn a_tracked_path_is_read_as_what_it_stores() {
    let disk = Disk {
        is_link: |path: &Vec<u8>| -> Kind {
            match path.as_slice() {
                b"link" => Ok(true),
                b"file" => Ok(false),
                _ => Err("not found".to_owned()),
            }
        },
        read_link: |_: &Vec<u8>| -> Contents { Ok(b"target".to_vec()) },
        read_file: |_: &Vec<u8>| -> Contents { Ok(b"contents".to_vec()) },
    };
    let mut tree = Files::new(no_git, disk, NoFiles);
    assert_eq!(read_tracked_path(&mut tree, &b"link".to_vec()), Ok(b"target".to_vec()));
    assert_eq!(read_tracked_path(&mut tree, &b"file".to_vec()), Ok(b"contents".to_vec()));
    assert_eq!(
        read_tracked_path(&mut tree, &b"other".to_vec()),
        Err("not found".to_owned())
    );
}

#[test]
fn links_are_sorted_and_listed_once() {
    let text = format!(
        "<{URL}>\n\"{URL}-L9\" `{}` ({URL}).\nhttps://github.com/o/r/blob/main/a#L1\n",
        URL.replace("/o/", "/b/")
    );
    let read = |_: &Vec<u8>| Ok(text.clone().into_bytes());
    let result = scan(b"root", listing("f\0"), files(read)).unwrap();
    let found: Vec<(String, Vec<usize>)> = result
        .urls
        .iter()
        .map(|found| {
            (
                found.url.text.clone(),
                found.occurrences.iter().map(|place| place.line).collect(),
            )
        })
        .collect();
    assert_eq!(
        found,
        [
            (URL.replace("/o/", "/b/"), vec![2]),
            (URL.to_owned(), vec![1, 2]),
            (format!("{URL}-L9"), vec![2]),
        ]
    );
}

#[test]
fn unreadable_files_are_reported_and_other_files_still_read() {
    let read = |path: &Vec<u8>| match path.as_slice() {
        b"root/a" => Err("permission denied".to_owned()),
        b"root/bin" => {
            let mut bytes = vec![0xff];
            bytes.extend_from_slice(URL.as_bytes());
            Ok(bytes)
        }
        _ => Ok(URL.as_bytes().to_vec()),
    };
    let result = scan(b"root", listing("a\0bin\0b\0"), files(read)).unwrap();
    assert_eq!(result.errors, ["root/a: permission denied"]);
    assert_eq!(result.urls.len(), 1);
    assert_eq!(result.urls[0].occurrences.len(), 1);
    assert_eq!(result.urls[0].occurrences[0].file, b"root/b".to_vec());
}

#[test]
fn a_listing_that_fails_fails_the_scan() {
    let refused = scan(
        b"root",
        |_: &Command| finished(Some(128), "a\0", " fatal: not a repository\n"),
        files(|_: &Vec<u8>| Ok(Vec::new())),
    );
    assert_eq!(
        refused.unwrap_err().to_string(),
        "could not list tracked files: fatal: not a repository"
    );
    let unstarted = scan(
        b"root",
        |_: &Command| Reply::Unstarted("no such file".to_owned()),
        files(|_: &Vec<u8>| Ok(Vec::new())),
    );
    assert_eq!(
        unstarted.unwrap_err().to_string(),
        "could not run Git in root: no such file"
    );
}

#[test]
fn empty_names_are_no_paths() {
    assert_eq!(paths_in_listing(b""), Vec::<Vec<u8>>::new());
    assert_eq!(paths_in_listing(b"\0a\0\0b"), [b"a".to_vec(), b"b".to_vec()]);
    let paths = paths_of_reply(b"root", finished(Some(0), "x\0y z\0", "")).unwrap();
    assert_eq!(paths, [b"x".to_vec(), b"y z".to_vec()]);
}

#[test]
fn lines_are_counted_by_line_feeds_alone() {
    let text = format!("\u{e9}\r\n\u{2028}\n\n  {URL}");
    let read = |_: &Vec<u8>| Ok(text.clone().into_bytes());
    let result = scan(b"root", listing("f\0"), files(read)).unwrap();
    assert_eq!(result.urls[0].occurrences[0].line, 4);
}

#[test]
fn scans_come_to_the_same_whoever_is_told() {
    let commit = "0123456789abcdef0123456789abcdef01234567";
    let read = |path: &Vec<u8>| match path.as_slice() {
        b"root/a" => Ok(format!("https://github.com/o/r/blob/{commit}/f#L1\n").into_bytes()),
        _ => Err("gone".to_owned()),
    };
    let silent = scan(b"root", listing("a\0b\0"), files(read)).unwrap();
    let named = scan_with(b"root", listing("a\0b\0"), files(read), |_: &Vec<u8>| {}).unwrap();
    let counted = scan_with_counted(
        b"root",
        listing("a\0b\0"),
        files(read),
        |_: &Vec<u8>, _: usize, _: usize| {},
    )
    .unwrap();
    assert_eq!(silent.urls.len(), 1);
    assert_eq!(silent.errors, ["root/b: gone"]);
    assert_eq!(format!("{:?}", silent.urls), format!("{:?}", named.urls));
    assert_eq!(format!("{:?}", silent.urls), format!("{:?}", counted.urls));
    assert_eq!(silent.errors, named.errors);
    assert_eq!(silent.errors, counted.errors);
}

#[test]
fn no_file_is_named_where_none_can_be_listed() {
    let mut tree = Files::new(
        |_: &Command| Reply::Unstarted("gone".to_owned()),
        files(no_file_is_read),
        CountedFiles::new(|_: &Vec<u8>, _: usize, _: usize| panic!("no file is named")),
    );
    assert_eq!(
        scan_tree(b"root", &mut tree).unwrap_err().to_string(),
        "could not run Git in root: gone"
    );
}
