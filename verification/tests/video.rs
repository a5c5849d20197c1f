use timelapse::command::{ffmpeg_args, filter_graph, Arg, LensTexts, TransitionTexts, VideoConfig};
use timelapse::concat::{append_escaped, concat_content};
use timelapse::error::Error;
use timelapse::job::{plan, Job, JobAction, JobEvent, JobState, Listing};
use timelapse::run::{append_line, progress_frame, FfmpegRun, RunAction, RunEvent, RunState};
use timelapse::selection::{has_jpg_extension, image_order};
use timelapse::text::{
    append_decimal, decimal_text, first_line, is_white_space, last_lines,
};
use timelapse::version::{check_version, not_found, version_line};

fn bytes(names: &[&str]) -> Vec<Vec<u8>> {
    names.iter().map(|name| name.as_bytes().to_vec()).collect()
}

fn listing(names: &[&str]) -> Listing {
    Listing { names: bytes(names), texts: names.iter().map(|name| name.to_string()).collect() }
}

fn config(dissolve: bool) -> VideoConfig {
    VideoConfig {
        framerate: 15,
        codec: "libx264".to_string(),
        crf: 23,
        dissolve,
        transition_framerate: 60,
    }
}

fn texts(count: usize) -> TransitionTexts {
    TransitionTexts {
        even: LensTexts { k1: "0.0050".to_string(), k2: "0.0010".to_string() },
        odd: LensTexts { k1: "-0.0050".to_string(), k2: "-0.0010".to_string() },
        stream_duration: "0.566667".to_string(),
        dissolve_duration: "0.500000".to_string(),
        offsets: (1..count).map(|i| format!("{:.6}", i as f64 / 15.0)).collect(),
    }
}

/// Arguments as text; paths stand in angle brackets.
fn shown(args: Vec<Arg>) -> Vec<String> {
    args.into_iter()
        .map(|arg| match arg {
            Arg::Text(text) => text,
            Arg::Image(index) => format!("<image {index}>"),
            Arg::ConcatList => "<list>".to_string(),
            Arg::Output => "<video>".to_string(),
        })
        .collect()
}

#[test]
fn extension_of_a_name() {
    for name in [
        "a.jpg", "b.c.jpg", "..jpg", ".jpg", "jpg", "a.JPG", "a.jpeg", "a.jpg.png", "a.jpg.", "",
        "é.jpg", "xjpg", "a jpg",
    ] {
        let expected =
            std::path::Path::new(name).extension().map(|e| e == "jpg").unwrap_or(false);
        assert_eq!(has_jpg_extension(&name.as_bytes().to_vec()), expected, "{name}");
    }
}

#[test]
fn images_come_out_sorted() {
    let names = bytes(&["2024-03.jpg", "notes.txt", "2023-12.jpg", "2024-03-a.jpg", "2024.jpg"]);
    assert_eq!(image_order(&names), vec![2, 3, 0, 4]);
}

#[test]
fn order_agrees_with_sorting_paths() {
    let mut names: Vec<String> = Vec::new();
    let mut state: u64 = 1;
    for _ in 0..300 {
        state = state.wrapping_mul(6364136223846793005).wrapping_add(1442695040888963407);
        let ending = if state % 5 == 0 { "png" } else { "jpg" };
        names.push(format!("{:x}.{}", (state >> 33) % 5000, ending));
    }
    let raw: Vec<Vec<u8>> = names.iter().map(|name| name.as_bytes().to_vec()).collect();
    let ordered: Vec<&String> = image_order(&raw).into_iter().map(|i| &names[i]).collect();
    let mut expected: Vec<std::path::PathBuf> = names
        .iter()
        .filter(|name| name.ends_with(".jpg"))
        .map(|name| std::path::Path::new("/dir").join(name))
        .collect();
    expected.sort();
    let expected: Vec<String> = expected
        .iter()
        .map(|path| path.file_name().unwrap().to_string_lossy().into_owned())
        .collect();
    assert_eq!(ordered, expected.iter().collect::<Vec<_>>());
}

#[test]
fn listing_order_is_irrelevant() {
    let one = bytes(&["c.jpg", "a.jpg", "b.txt", "b.jpg"]);
    let other = bytes(&["b.jpg", "b.txt", "c.jpg", "a.jpg"]);
    let sorted = |names: &Vec<Vec<u8>>| -> Vec<Vec<u8>> {
        image_order(names).into_iter().map(|i| names[i].clone()).collect()
    };
    assert_eq!(sorted(&one), sorted(&other));
}

#[test]
fn time_stamps_come_out_in_order() {
    let names = bytes(&["20240210-b.jpg", "20231231-z.jpg", "20240209-a.jpg", "20240210-a.jpg"]);
    assert_eq!(image_order(&names), vec![1, 2, 3, 0]);
}

#[test]
fn equal_names_keep_their_order() {
    assert_eq!(image_order(&bytes(&["b.jpg", "a.jpg", "b.jpg", "a.jpg"])), vec![1, 3, 0, 2]);
}

#[test]
fn no_images_no_order() {
    assert_eq!(image_order(&Vec::new()), Vec::<usize>::new());
    assert_eq!(image_order(&bytes(&["a.txt", ".jpg"])), Vec::<usize>::new());
}

#[test]
fn escaping_agrees_with_replacing() {
    for name in ["plain.jpg", "it's.jpg", "''", "", "'a'b'", "naïve 'ß'.jpg", "back\\slash"] {
        let mut text = "> ".to_string();
        append_escaped(&mut text, name);
        assert_eq!(text, format!("> {}", name.replace('\'', "'\\''")));
    }
}

#[test]
fn list_of_frames() {
    let names: Vec<String> = ["b.jpg", "it's a.jpg", "skipped"].map(String::from).to_vec();
    assert_eq!(
        concat_content(&names, &vec![1, 0], "0.066667"),
        "file 'it'\\''s a.jpg'\nduration 0.066667\nfile 'b.jpg'\n"
    );
    assert_eq!(concat_content(&names, &vec![0], "0.066667"), "file 'b.jpg'\n");
    assert_eq!(concat_content(&names, &vec![], "0.066667"), "");
    let three = concat_content(&names, &vec![0, 0, 0], "1.000000");
    assert_eq!(three.lines().count(), 5);
}

#[test]
fn a_plan_for_a_directory() {
    let plan = plan(&listing(&["b.jpg", "x.txt", "a.jpg"]), "0.040000").unwrap();
    assert_eq!(plan.order, vec![2, 0]);
    assert_eq!(plan.image_count, 2);
    assert_eq!(plan.concat, "file 'a.jpg'\nduration 0.040000\nfile 'b.jpg'\n");
}

#[test]
fn a_directory_without_images() {
    let error = plan(&listing(&["x.txt"]), "0.040000").unwrap_err();
    assert!(matches!(
        error,
        Error::VideoCompilation(message) if message == "No images found in input directory"
    ));
}

#[test]
fn a_job_removes_its_list() {
    let mut job = Job::new();
    let event =
        JobEvent::Listed { listing: listing(&["a.jpg"]), duration: "0.040000".to_string() };
    match job.step(event) {
        JobAction::Create(plan) => assert_eq!(plan.concat, "file 'a.jpg'\n"),
        _ => panic!("expected a plan"),
    }
    assert!(matches!(job.step(JobEvent::Created), JobAction::Write));
    assert!(matches!(job.step(JobEvent::Written), JobAction::Run));
    assert!(matches!(job.step(JobEvent::RunEnded), JobAction::Remove));
    assert_eq!(job.state, JobState::Cleaning);
    assert!(matches!(job.step(JobEvent::Removed), JobAction::Return));
    assert_eq!(job.state, JobState::Done);
}

#[test]
fn a_job_that_cannot_write_its_list_removes_it() {
    let mut job = Job::new();
    job.step(JobEvent::Listed { listing: listing(&["a.jpg"]), duration: "0.040000".to_string() });
    assert!(matches!(job.step(JobEvent::Created), JobAction::Write));
    assert!(matches!(job.step(JobEvent::WriteFailed), JobAction::Remove));
    assert_eq!(job.state, JobState::CleaningUnwritten);
    assert!(matches!(job.step(JobEvent::Removed), JobAction::FailIo));
    assert_eq!(job.state, JobState::Done);
}

#[test]
fn a_job_that_cannot_create_its_list() {
    let mut job = Job::new();
    job.step(JobEvent::Listed { listing: listing(&["a.jpg"]), duration: "0.040000".to_string() });
    assert_eq!(job.state, JobState::Creating);
    assert!(matches!(job.step(JobEvent::IoFailed), JobAction::FailIo));
    assert_eq!(job.state, JobState::Done);
}

#[test]
fn plans_ignore_other_entries_and_their_order() {
    let one = plan(&listing(&["c.jpg", "a.jpg", "b.txt"]), "0.040000").unwrap();
    let other = plan(&listing(&["z.png", "a.jpg", "q", "c.jpg"]), "0.040000").unwrap();
    assert_eq!(one.concat, other.concat);
    assert_eq!(one.image_count, other.image_count);
}

#[test]
fn a_job_that_fails() {
    let mut job = Job::new();
    let event = JobEvent::Listed { listing: listing(&[]), duration: "0.040000".to_string() };
    assert!(matches!(job.step(event), JobAction::Fail(Error::VideoCompilation(_))));
    assert_eq!(job.state, JobState::Done);
    let mut job = Job::new();
    assert!(matches!(job.step(JobEvent::IoFailed), JobAction::FailIo));
    assert_eq!(job.state, JobState::Done);
}

#[test]
fn command_line_with_a_list() {
    let expected = [
        "-y", "-f", "concat", "-safe", "0", "-i", "<list>", "-r", "15", "-c:v", "libx264", "-crf",
        "23", "-pix_fmt", "yuv420p", "-progress", "pipe:1", "<video>",
    ];
    assert_eq!(shown(ffmpeg_args(&config(false), &texts(3), 3)), expected);
    // A single image has nothing to dissolve into.
    assert_eq!(shown(ffmpeg_args(&config(true), &texts(1), 1)), expected);
}

#[test]
fn command_line_with_dissolves() {
    let args = shown(ffmpeg_args(&config(true), &texts(2), 2));
    let filter = "[0:v]lenscorrection=k1=0.0050:k2=0.0010,trim=duration=0.566667,\
                  setpts=PTS-STARTPTS[v0];\
                  [1:v]lenscorrection=k1=-0.0050:k2=-0.0010,trim=duration=0.566667,\
                  setpts=PTS-STARTPTS[v1];\
                  [v0][v1]xfade=transition=fade:duration=0.500000:offset=0.066667[x1];";
    let expected = [
        "-y", "-loop", "1", "-framerate", "60", "-i", "<image 0>", "-loop", "1", "-framerate",
        "60", "-i", "<image 1>", "-filter_complex", filter, "-map", "[x1]", "-r", "60", "-c:v",
        "libx264", "-crf", "23", "-pix_fmt", "yuv420p", "-progress", "pipe:1", "<video>",
    ];
    assert_eq!(args, expected);
}

#[test]
fn filter_graph_of_many_images() {
    let count = 12;
    let texts = texts(count);
    let mut expected = String::new();
    for index in 0..count {
        let sign = if index % 2 == 0 { "" } else { "-" };
        expected.push_str(&format!(
            "[{index}:v]lenscorrection=k1={sign}0.0050:k2={sign}0.0010,trim=duration=0.566667,\
             setpts=PTS-STARTPTS[v{index}];"
        ));
    }
    let mut current = "v0".to_string();
    for index in 1..count {
        let output = format!("x{index}");
        expected.push_str(&format!(
            "[{current}][v{index}]xfade=transition=fade:duration=0.500000:offset={:.6}[{output}];",
            index as f64 / 15.0
        ));
        current = output;
    }
    assert_eq!(filter_graph(&texts, count), expected);
    assert_eq!(filter_graph(&texts, 0), "");
}

#[test]
fn progress_lines() {
    assert_eq!(progress_frame("frame=12", 100), Some(12));
    assert_eq!(progress_frame("frame=   7\t", 100), Some(7));
    assert_eq!(progress_frame("frame=+5", 100), Some(5));
    assert_eq!(progress_frame("frame=0", 100), Some(0));
    assert_eq!(progress_frame("frame=500", 100), Some(100));
    assert_eq!(progress_frame("frame=4294967295", u32::MAX), Some(u32::MAX));
    for line in [
        "frame=4294967296", "frame=99999999999999999999", "frame=", "frame=+", "frame=-1",
        "frame=++1", "frame=1 2", "frame=x", " frame=1", "Frame=1", "fps=25", "", "fram",
    ] {
        assert_eq!(progress_frame(line, 100), None, "{line}");
    }
}

#[test]
fn progress_agrees_with_parsing() {
    for text in ["1", " 1", "\u{a0}12\u{3000}", "007", "+0", "1_000", "١", "12a", "0x1", "\n3\r\n"] {
        let expected = text.trim().parse::<u32>().ok();
        assert_eq!(progress_frame(&format!("frame={text}"), u32::MAX), expected, "{text}");
    }
}

#[test]
fn a_run_that_succeeds() {
    let mut run = FfmpegRun::new(3);
    assert!(matches!(run.step(RunEvent::Spawned), RunAction::Read));
    assert!(matches!(run.step(RunEvent::Line("fps=1".to_string())), RunAction::Read));
    assert!(matches!(
        run.step(RunEvent::Line("frame=2".to_string())),
        RunAction::Report { frame: 2, total: 3 }
    ));
    assert!(matches!(
        run.step(RunEvent::Line("frame=9".to_string())),
        RunAction::Report { frame: 3, total: 3 }
    ));
    assert!(matches!(run.step(RunEvent::EndOfOutput), RunAction::Wait));
    assert_eq!(run.state, RunState::Waiting);
    let exited = RunEvent::Exited {
        success: true,
        status: "exit status: 0".to_string(),
        stderr: String::new(),
    };
    assert!(matches!(run.step(exited), RunAction::Complete { total: 3 }));
    assert_eq!(run.state, RunState::Finished);
}

#[test]
fn a_run_that_is_cancelled() {
    let mut run = FfmpegRun::new(3);
    run.step(RunEvent::Spawned);
    assert!(matches!(run.step(RunEvent::Cancelled), RunAction::Kill(Error::Cancelled)));
    assert_eq!(run.state, RunState::Finished);
}

#[test]
fn a_run_that_cannot_be_read() {
    let mut run = FfmpegRun::new(3);
    run.step(RunEvent::Spawned);
    assert!(matches!(run.step(RunEvent::IoFailed), RunAction::FailIo));
    assert_eq!(run.state, RunState::Finished);
}

#[test]
fn a_run_that_does_not_start() {
    let message = |event: RunEvent| match FfmpegRun::new(1).step(event) {
        RunAction::Fail(Error::FFmpeg(message)) => message,
        _ => panic!("expected a failure"),
    };
    assert_eq!(
        message(RunEvent::SpawnFailed("not found".to_string())),
        "Failed to spawn ffmpeg (is it installed?): not found"
    );
    assert_eq!(message(RunEvent::NoStdout), "Failed to capture ffmpeg stdout");
    assert_eq!(message(RunEvent::NoStderr), "Failed to capture ffmpeg stderr");
}

#[test]
fn a_run_that_fails_quotes_the_last_lines() {
    let mut run = FfmpegRun::new(1);
    run.step(RunEvent::Spawned);
    run.step(RunEvent::EndOfOutput);
    let mut stderr = String::new();
    for i in 1..=12 {
        append_line(&mut stderr, &format!("line {i}"));
    }
    let exited =
        RunEvent::Exited { success: false, status: "exit status: 1".to_string(), stderr };
    match run.step(exited) {
        RunAction::Fail(Error::FFmpeg(message)) => assert_eq!(
            message,
            "ffmpeg exited with status exit status: 1\nline 3\nline 4\nline 5\nline 6\nline 7\n\
             line 8\nline 9\nline 10\nline 11\nline 12"
        ),
        _ => panic!("expected a failure"),
    }
}

#[test]
fn lines_agree_with_the_standard_library() {
    for text in [
        "", "\n", "a", "a\n", "a\r\n", "a\r", "a\nb", "a\n\nb\n", "\r\n\r\n", "x\r\r\ny", "ä\nß\r\nz",
        "\n\n", "one\rtwo\nthree",
    ] {
        let all: Vec<&str> = text.lines().collect();
        assert_eq!(first_line(text), all.first().map(|line| line.to_string()), "{text:?}");
        for count in 0..4 {
            let start = all.len().saturating_sub(count);
            assert_eq!(last_lines(text, count), all[start..].join("\n"), "{text:?}");
        }
    }
}

#[test]
fn written_lines_are_read_back() {
    let written = ["first", "", "third line", "vierte"];
    let mut log = String::new();
    for line in written {
        append_line(&mut log, line);
    }
    assert_eq!(last_lines(&log, 10), written.join("\n"));
}

#[test]
fn numerals_agree_with_the_standard_library() {
    for number in [0, 1, 9, 10, 11, 99, 100, 12345, u32::MAX as u64, u64::MAX] {
        assert_eq!(decimal_text(number), number.to_string());
        let mut text = "n=".to_string();
        append_decimal(&mut text, number);
        assert_eq!(text, format!("n={number}"));
    }
    for number in [0u32, 7, 4096, u32::MAX] {
        let line = format!("frame={}", decimal_text(number as u64));
        assert_eq!(progress_frame(&line, u32::MAX), Some(number));
    }
}

#[test]
fn white_space_agrees_with_the_standard_library() {
    for code in 0..=0x10ffffu32 {
        if let Some(c) = char::from_u32(code) {
            assert_eq!(is_white_space(c), c.is_whitespace(), "{code:x}");
        }
    }
}

#[test]
fn version_of_ffmpeg() {
    let output = b"ffmpeg version 6.1\r\nbuilt with gcc\n";
    assert_eq!(check_version(true, output).unwrap(), "ffmpeg version 6.1");
    assert_eq!(check_version(true, b"").unwrap(), "unknown");
    assert_eq!(check_version(true, b"\nx").unwrap(), "");
    assert_eq!(check_version(true, b"ffmpeg \xff6\n").unwrap(), "ffmpeg \u{fffd}6");
    assert_eq!(version_line("a\nb"), "a");
    assert_eq!(version_line(""), "unknown");
}

#[test]
fn ffmpeg_that_is_not_there() {
    assert!(matches!(
        check_version(false, b"ffmpeg version 6.1\n"),
        Err(Error::FFmpeg(message)) if message == "ffmpeg version check failed"
    ));
    assert!(matches!(
        not_found("no such file"),
        Error::FFmpeg(message) if message == "ffmpeg not found: no such file"
    ));
}
