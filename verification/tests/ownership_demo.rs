fn smallest(v: &[i64]) -> &i64 {
    let mut s = &v[0];
    for r in &v[1..] {
        if *r < *s {
            s = r;
        }
    }
    s
}

struct S<'a> {
    r: &'a i32,
}

fn f1<'a>(a: &'a i64, b: &'a i64) -> &'a i64 {
    if *a > *b {
        a
    } else {
        b
    }
}

fn f2<'a: 'c, 'b: 'c, 'c>(a: &'a i64, b: &'b i64) -> &'c i64 {
    if *a > *b {
        a
    } else {
        b
    }
}

fn f3<'a: 'b, 'b>(a: &'a i64, _b: &'b i64) -> &'a i64 {
    a
}

#[test]
fn move_out_from_vec() {
    let mut v: Vec<String> = Vec::new();
    let mut i: i32 = 101;
    while i < 106 {
        v.push(i.to_string());
        i += 1;
    }

    let _third = &v[2];
    let _fifth = &v[4];
}

#[test]
fn return_ref() {
    {
        let parabola: [i64; 7] = [9, 4, 1, 0, 1, 4, 9];
        let s = smallest(&parabola);
        assert_eq!(*s, 0);
    }
}

#[test]
fn struct_containing_ref() {
    {
        let x: i32 = 10;
        let s = S { r: &x };
        assert_eq!(*s.r, 10);
    }
}

#[test]
fn distinct_lifttime() {
    let a: i64 = 10;
    let d;
    {
        let b: i64 = 5;
        let c = f1(&a, &b);

        assert_eq!(*c, 10);

        let c = f2(&a, &b);

        assert_eq!(*c, 10);

        let c = f3(&a, &b);

        assert_eq!(*c, 10);

        d = f3(&a, &b);
        assert_eq!(*d, 10);
    }
}
