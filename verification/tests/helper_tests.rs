use mllib::helper::{
    bias_reshape, fc_kernel_reshape, get_gather_idx, get_tensor, inp_reshape, kernel_reshape,
};
use mllib::processing::Tensor;

fn tensor(idx: i32, shape: Vec<i32>, data: Vec<i32>) -> Tensor {
    Tensor { idx, shape, data }
}

#[test]
fn get_tensor_returns_last_match() {
    let tensors = vec![
        tensor(3, vec![1], vec![7]),
        tensor(5, vec![2], vec![1, 2]),
        tensor(3, vec![2], vec![8, 9]),
    ];
    let t = get_tensor(3, &tensors);
    assert_eq!(t, tensor(3, vec![2], vec![8, 9]));
    let t = get_tensor(5, &tensors);
    assert_eq!(t, tensor(5, vec![2], vec![1, 2]));
}

#[test]
fn get_tensor_missing_index_gives_empty_tensor() {
    let tensors = vec![tensor(3, vec![1], vec![7])];
    let t = get_tensor(4, &tensors);
    assert_eq!(t, tensor(0, vec![], vec![]));
    let t = get_tensor(0, &vec![]);
    assert_eq!(t, tensor(0, vec![], vec![]));
}

#[test]
fn inp_reshape_fills_row_major() {
    let data: Vec<i32> = (0..13).collect();
    let out = inp_reshape(&data, vec![2, 3, 2]);
    assert_eq!(
        out,
        vec![
            vec![vec![0, 1], vec![2, 3], vec![4, 5]],
            vec![vec![6, 7], vec![8, 9], vec![10, 11]],
        ]
    );
}

#[test]
fn inp_reshape_zero_dimension() {
    let data: Vec<i32> = vec![];
    assert_eq!(inp_reshape(&data, vec![0]), Vec::<Vec<Vec<i32>>>::new());
    assert_eq!(inp_reshape(&data, vec![2, 0]), vec![Vec::<Vec<i32>>::new(), vec![]]);
}

#[test]
fn kernel_reshape_fills_row_major() {
    let data: Vec<i32> = (0..24).collect();
    let out = kernel_reshape(tensor(1, vec![2, 3, 2, 2], data));
    assert_eq!(out.len(), 2);
    assert_eq!(out[0].len(), 3);
    assert_eq!(out[0][0], vec![vec![0, 1], vec![2, 3]]);
    assert_eq!(out[1][2], vec![vec![20, 21], vec![22, 23]]);
    assert_eq!(out[1][0][1][0], 14);
}

#[test]
fn bias_reshape_takes_leading_entries() {
    assert_eq!(bias_reshape(tensor(1, vec![2], vec![4, 5, 6])), vec![4, 5]);
    assert_eq!(bias_reshape(tensor(1, vec![0], vec![4])), Vec::<i32>::new());
}

#[test]
fn fc_kernel_reshape_fills_rows() {
    let out = fc_kernel_reshape(tensor(1, vec![2, 3], vec![1, 2, 3, 4, 5, 6, 7]));
    assert_eq!(out, vec![vec![1, 2, 3], vec![4, 5, 6]]);
}

#[test]
fn gather_idx_is_the_lower_triangle() {
    let expected: Vec<i32> = vec![
        27, 54, 55, 81, 82, 83, 108, 109, 110, 111, 135, 136, 137, 138, 139, 162, 163, 164, 165,
        166, 167, 189, 190, 191, 192, 193, 194, 195, 216, 217, 218, 219, 220, 221, 222, 223, 243,
        244, 245, 246, 247, 248, 249, 250, 251, 270, 271, 272, 273, 274, 275, 276, 277, 278, 279,
        297, 298, 299, 300, 301, 302, 303, 304, 305, 306, 307, 324, 325, 326, 327, 328, 329, 330,
        331, 332, 333, 334, 335, 351, 352, 353, 354, 355, 356, 357, 358, 359, 360, 361, 362, 363,
        378, 379, 380, 381, 382, 383, 384, 385, 386, 387, 388, 389, 390, 391, 405, 406, 407, 408,
        409, 410, 411, 412, 413, 414, 415, 416, 417, 418, 419, 432, 433, 434, 435, 436, 437, 438,
        439, 440, 441, 442, 443, 444, 445, 446, 447, 459, 460, 461, 462, 463, 464, 465, 466, 467,
        468, 469, 470, 471, 472, 473, 474, 475, 486, 487, 488, 489, 490, 491, 492, 493, 494, 495,
        496, 497, 498, 499, 500, 501, 502, 503, 513, 514, 515, 516, 517, 518, 519, 520, 521, 522,
        523, 524, 525, 526, 527, 528, 529, 530, 531, 540, 541, 542, 543, 544, 545, 546, 547, 548,
        549, 550, 551, 552, 553, 554, 555, 556, 557, 558, 559, 567, 568, 569, 570, 571, 572, 573,
        574, 575, 576, 577, 578, 579, 580, 581, 582, 583, 584, 585, 586, 587, 594, 595, 596, 597,
        598, 599, 600, 601, 602, 603, 604, 605, 606, 607, 608, 609, 610, 611, 612, 613, 614, 615,
        621, 622, 623, 624, 625, 626, 627, 628, 629, 630, 631, 632, 633, 634, 635, 636, 637, 638,
        639, 640, 641, 642, 643, 648, 649, 650, 651, 652, 653, 654, 655, 656, 657, 658, 659, 660,
        661, 662, 663, 664, 665, 666, 667, 668, 669, 670, 671, 675, 676, 677, 678, 679, 680, 681,
        682, 683, 684, 685, 686, 687, 688, 689, 690, 691, 692, 693, 694, 695, 696, 697, 698, 699,
        702, 703, 704, 705, 706, 707, 708, 709, 710, 711, 712, 713, 714, 715, 716, 717, 718, 719,
        720, 721, 722, 723, 724, 725, 726, 727,
    ];
    assert_eq!(get_gather_idx(), expected);
    assert_eq!(get_gather_idx().len(), 351);
}
