use audiobook::fragments::{
    chapter_file_name, fragment_file_name, plan_chapter, ChapterPlan, FragmentScheduler, Synthesis,
};
use audiobook::PipelineError;

#[test]
fn dispatch_is_bounded() {
    let mut s = FragmentScheduler::new(3, 2);
    assert_eq!(s.dispatch(), Some(0));
    assert_eq!(s.dispatch(), Some(1));
    assert_eq!(s.dispatch(), None);
    assert!(!s.settle(1, Synthesis::Written(10)));
    assert_eq!(s.dispatch(), Some(2));
    assert_eq!(s.dispatch(), None);
    assert!(!s.is_complete());
}

fn run(order: &[usize]) -> Vec<String> {
    let mut s = FragmentScheduler::new(4, 4);
    for _ in 0..4 {
        s.dispatch();
    }
    for &p in order {
        s.settle(p, Synthesis::Written(100 + p as u64));
    }
    assert!(s.is_complete());
    s.fragment_files("./tmp", 1).unwrap()
}

#[test]
fn order_independent_of_completion() {
    let a = run(&[3, 1, 0, 2]);
    let b = run(&[0, 1, 2, 3]);
    assert_eq!(a, b);
    assert_eq!(a, vec!["./tmp/c1_p_1.mp3", "./tmp/c1_p_2.mp3", "./tmp/c1_p_3.mp3", "./tmp/c1_p_4.mp3"]);
}

#[test]
fn empty_output_is_dropped() {
    let mut s = FragmentScheduler::new(3, 3);
    for _ in 0..3 {
        s.dispatch();
    }
    assert!(s.settle(1, Synthesis::Written(0)));
    assert!(!s.settle(0, Synthesis::Written(5)));
    assert!(!s.settle(2, Synthesis::Failed));
    assert_eq!(s.kept(), vec![0]);
    assert_eq!(s.fragment_files("d", 2).unwrap(), vec!["d/c2_p_1.mp3"]);
}

#[test]
fn all_empty_is_assembly_error() {
    let mut s = FragmentScheduler::new(2, 1);
    assert_eq!(s.dispatch(), Some(0));
    assert!(s.settle(0, Synthesis::Written(0)));
    assert_eq!(s.dispatch(), Some(1));
    assert!(s.settle(1, Synthesis::Written(0)));
    assert!(s.is_complete());
    assert_eq!(s.fragment_files("d", 1), Err(PipelineError::AssemblyError));
}

#[test]
fn empty_chapter_is_assembly_error() {
    let s = FragmentScheduler::new(0, 1);
    assert!(s.is_complete());
    assert_eq!(s.fragment_files("d", 1), Err(PipelineError::AssemblyError));
}

#[test]
fn existing_chapter_is_reused() {
    assert!(matches!(plan_chapter(true, 5, 4), ChapterPlan::Reuse));
    match plan_chapter(false, 2, 4) {
        ChapterPlan::Synthesize(mut s) => {
            assert_eq!(s.dispatch(), Some(0));
        }
        ChapterPlan::Reuse => panic!("expected synthesis"),
    }
}

#[test]
fn file_names() {
    assert_eq!(fragment_file_name("./tmp", 3, 12), "./tmp/c3_p_12.mp3");
    assert_eq!(chapter_file_name("./tmp", 0), "./tmp/chapter_0.m4a");
}

#[test]
fn numeric_paragraph_order() {
    let mut s = FragmentScheduler::new(10, 10);
    for _ in 0..10 {
        s.dispatch();
    }
    for p in [9, 1, 0] {
        s.settle(p, Synthesis::Written(7));
    }
    for p in 2..9 {
        s.settle(p, Synthesis::Failed);
    }
    assert_eq!(
        s.fragment_files("./tmp", 1).unwrap(),
        vec!["./tmp/c1_p_1.mp3", "./tmp/c1_p_2.mp3", "./tmp/c1_p_10.mp3"]
    );
}
