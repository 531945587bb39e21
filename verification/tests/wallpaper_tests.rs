use desk::wallpaper::bits::{br_bits, BitReader};
use desk::wallpaper::bmp::decode_bmp;
use desk::wallpaper::huffman::{huff_build, huff_decode, Huff};
use desk::wallpaper::inflate::{adler32_of, inflate};
use desk::wallpaper::png::{decode_png, paeth};
use desk::wallpaper::ppm::decode_ppm;
use desk::wallpaper::state::{decode_image, draw, finish_load, has_path, set_path, DrawStep, Wallpaper};
use std::collections::HashSet;

const GRADIENT_PNG: [u8; 3306] = [
    137, 80, 78, 71, 13, 10, 26, 10, 0, 0, 0, 13, 73, 72, 68, 82,
    0, 0, 0, 64, 0, 0, 0, 64, 8, 2, 0, 0, 0, 37, 11, 230,
    137, 0, 0, 12, 177, 73, 68, 65, 84, 120, 218, 221, 154, 127, 108, 220,
    69, 122, 135, 95, 47, 147, 176, 36, 142, 99, 200, 132, 108, 146, 77, 88,
    18, 227, 12, 201, 38, 108, 18, 147, 108, 226, 9, 113, 85, 95, 228, 11,
    22, 154, 82, 95, 217, 70, 46, 184, 233, 28, 93, 116, 46, 114, 57, 55,
    55, 170, 124, 200, 112, 6, 124, 167, 81, 187, 112, 38, 183, 7, 206, 221,
    148, 108, 192, 4, 151, 24, 110, 116, 218, 171, 172, 212, 13, 150, 58, 119,
    103, 122, 123, 145, 75, 45, 221, 136, 219, 32, 11, 185, 212, 10, 83, 213,
    244, 220, 212, 199, 117, 51, 40, 145, 77, 188, 249, 209, 132, 63, 236, 213,
    163, 213, 204, 124, 199, 150, 119, 252, 125, 246, 243, 206, 206, 2, 0, 32,
    128, 32, 64, 41, 64, 57, 0, 6, 8, 1, 132, 1, 34, 0, 21, 0,
    4, 32, 10, 16, 3, 168, 2, 136, 3, 80, 128, 26, 128, 90, 128, 58,
    128, 122, 0, 6, 208, 0, 144, 0, 104, 4, 104, 2, 224, 0, 73, 128,
    102, 128, 22, 128, 86, 0, 1, 208, 6, 208, 14, 208, 1, 208, 9, 32,
    1, 82, 0, 93, 0, 105, 128, 110, 0, 5, 144, 1, 232, 1, 232, 5,
    232, 3, 208, 0, 89, 128, 126, 128, 1, 128, 65, 0, 3, 48, 4, 144,
    3, 24, 6, 24, 1, 176, 0, 121, 128, 81, 128, 49, 128, 113, 0, 7,
    48, 1, 48, 9, 48, 5, 80, 82, 248, 243, 17, 148, 204, 93, 2, 231,
    215, 31, 21, 94, 70, 161, 113, 19, 160, 194, 171, 89, 0, 104, 33, 160,
    155, 1, 5, 1, 221, 2, 104, 17, 160, 197, 128, 74, 1, 45, 1, 84,
    6, 104, 41, 160, 114, 64, 183, 2, 186, 13, 208, 50, 64, 24, 208, 114,
    64, 183, 3, 90, 1, 40, 4, 104, 37, 160, 85, 128, 86, 3, 10, 3,
    90, 3, 104, 45, 160, 59, 0, 69, 0, 221, 9, 104, 29, 160, 245, 128,
    42, 0, 221, 5, 168, 18, 208, 6, 64, 4, 208, 221, 128, 54, 2, 218,
    4, 40, 10, 104, 51, 160, 45, 128, 238, 1, 20, 3, 180, 21, 208, 54,
    64, 219, 1, 85, 1, 186, 23, 208, 14, 64, 59, 1, 197, 1, 237, 2,
    180, 27, 80, 53, 32, 10, 104, 15, 160, 251, 0, 237, 189, 169, 112, 247,
    4, 206, 63, 110, 242, 32, 207, 2, 207, 66, 207, 205, 158, 160, 231, 22,
    207, 34, 207, 98, 79, 169, 103, 137, 167, 204, 179, 212, 83, 238, 185, 213,
    115, 155, 103, 153, 7, 123, 150, 123, 110, 247, 172, 240, 132, 60, 43, 61,
    171, 60, 171, 61, 97, 207, 26, 207, 90, 207, 29, 158, 136, 231, 206, 2,
    231, 111, 160, 243, 55, 18, 4, 0, 110, 242, 58, 204, 57, 10, 119, 1,
    94, 16, 196, 139, 74, 241, 210, 114, 92, 120, 172, 12, 225, 181, 97, 188,
    62, 130, 73, 5, 222, 76, 240, 182, 40, 222, 25, 195, 180, 10, 255, 94,
    28, 239, 163, 248, 254, 26, 204, 106, 241, 87, 234, 240, 129, 122, 252, 8,
    195, 188, 1, 63, 150, 192, 143, 55, 226, 175, 55, 97, 193, 241, 55, 147,
    248, 233, 102, 252, 92, 11, 150, 173, 248, 121, 129, 15, 183, 225, 151, 219,
    177, 234, 192, 199, 58, 241, 113, 137, 79, 164, 176, 238, 194, 63, 73, 227,
    147, 221, 248, 29, 133, 77, 6, 191, 219, 131, 79, 247, 226, 127, 235, 195,
    86, 227, 51, 89, 252, 97, 63, 254, 143, 1, 236, 6, 241, 39, 6, 159,
    27, 194, 191, 203, 97, 52, 140, 111, 25, 193, 101, 22, 47, 203, 227, 208,
    40, 94, 51, 134, 215, 141, 227, 13, 14, 71, 39, 240, 214, 73, 188, 99,
    10, 87, 151, 20, 222, 116, 16, 44, 156, 187, 204, 3, 137, 111, 131, 47,
    222, 218, 23, 61, 135, 61, 215, 107, 109, 32, 176, 206, 179, 222, 83, 113,
    169, 196, 11, 0, 22, 2, 220, 236, 195, 237, 150, 27, 65, 228, 6, 253,
    158, 98, 20, 254, 147, 100, 81, 144, 224, 82, 178, 182, 156, 16, 76, 182,
    133, 8, 13, 147, 125, 17, 194, 42, 200, 1, 66, 120, 148, 60, 30, 35,
    162, 138, 60, 29, 39, 146, 146, 195, 53, 68, 213, 146, 227, 117, 68, 215,
    147, 147, 140, 152, 6, 114, 58, 65, 108, 35, 249, 176, 137, 56, 78, 206,
    37, 9, 106, 38, 101, 45, 36, 212, 74, 214, 9, 18, 109, 35, 59, 218,
    73, 77, 7, 217, 223, 73, 26, 36, 121, 56, 69, 146, 93, 228, 137, 52,
    105, 235, 38, 207, 42, 146, 202, 144, 151, 122, 72, 166, 151, 188, 217, 71,
    178, 154, 156, 202, 146, 161, 126, 242, 222, 0, 201, 15, 146, 143, 12, 153,
    24, 34, 159, 230, 72, 112, 152, 220, 54, 66, 194, 150, 84, 230, 73, 108,
    148, 236, 30, 35, 181, 227, 228, 1, 71, 18, 19, 228, 224, 36, 105, 158,
    34, 135, 74, 10, 165, 2, 130, 197, 115, 151, 121, 32, 113, 24, 174, 207,
    218, 231, 175, 35, 107, 95, 14, 4, 186, 175, 213, 90, 207, 93, 129, 192,
    177, 64, 224, 213, 2, 87, 148, 120, 17, 192, 98, 95, 170, 46, 1, 40,
    187, 4, 60, 219, 224, 85, 66, 174, 227, 103, 233, 140, 54, 162, 75, 131,
    116, 109, 41, 221, 92, 78, 41, 166, 247, 135, 232, 129, 48, 125, 44, 66,
    69, 5, 125, 142, 208, 195, 81, 122, 44, 70, 117, 21, 125, 39, 78, 79,
    83, 122, 166, 134, 186, 90, 250, 187, 58, 90, 86, 79, 215, 48, 26, 109,
    160, 213, 9, 186, 191, 145, 254, 113, 19, 77, 114, 250, 141, 36, 125, 182,
    153, 190, 216, 66, 51, 173, 244, 71, 130, 158, 106, 163, 191, 108, 167, 249,
    14, 250, 113, 39, 253, 84, 210, 37, 41, 26, 238, 162, 155, 210, 116, 119,
    55, 253, 178, 162, 137, 12, 253, 243, 30, 122, 168, 151, 62, 211, 71, 187,
    52, 61, 154, 165, 111, 247, 211, 127, 26, 160, 185, 65, 250, 107, 67, 207,
    14, 209, 223, 230, 104, 233, 48, 93, 61, 66, 55, 90, 186, 43, 79, 235,
    70, 233, 67, 99, 244, 209, 113, 250, 87, 142, 118, 76, 208, 239, 78, 210,
    87, 166, 232, 91, 37, 133, 2, 31, 65, 249, 220, 101, 30, 72, 92, 9,
    95, 88, 133, 156, 190, 234, 172, 253, 97, 32, 160, 174, 100, 109, 129, 74,
    47, 238, 107, 30, 226, 185, 251, 90, 37, 94, 230, 55, 158, 183, 66, 161,
    2, 57, 223, 190, 12, 107, 174, 52, 225, 34, 155, 174, 122, 230, 174, 217,
    6, 25, 32, 134, 131, 140, 148, 50, 90, 206, 24, 102, 60, 196, 68, 152,
    201, 8, 83, 21, 76, 19, 102, 162, 204, 198, 152, 171, 98, 40, 206, 66,
    148, 69, 107, 88, 77, 45, 107, 168, 99, 201, 122, 214, 198, 88, 170, 129,
    101, 18, 44, 219, 200, 134, 154, 88, 158, 179, 137, 36, 11, 54, 179, 112,
    11, 139, 181, 178, 90, 193, 18, 109, 172, 185, 157, 181, 119, 176, 174, 78,
    214, 35, 89, 127, 138, 229, 186, 216, 104, 154, 77, 118, 179, 82, 197, 34,
    25, 86, 213, 195, 234, 122, 89, 99, 31, 107, 209, 172, 35, 203, 210, 253,
    172, 119, 128, 13, 12, 178, 97, 195, 198, 134, 216, 84, 142, 149, 15, 179,
    138, 17, 22, 183, 172, 62, 207, 154, 70, 89, 235, 24, 235, 28, 103, 221,
    142, 245, 77, 176, 193, 73, 54, 50, 197, 198, 75, 10, 219, 114, 4, 203,
    231, 46, 243, 64, 226, 24, 92, 133, 181, 47, 124, 161, 251, 218, 11, 214,
    30, 157, 205, 218, 2, 27, 60, 5, 101, 123, 2, 129, 215, 11, 226, 6,
    2, 27, 61, 155, 10, 92, 165, 196, 161, 11, 18, 47, 157, 41, 113, 33,
    137, 151, 3, 220, 238, 39, 92, 158, 117, 87, 154, 176, 249, 74, 19, 226,
    69, 198, 57, 32, 190, 50, 200, 183, 149, 242, 251, 203, 57, 199, 252, 155,
    33, 126, 56, 204, 79, 68, 184, 169, 224, 103, 8, 63, 23, 229, 203, 98,
    60, 90, 197, 191, 20, 231, 15, 83, 254, 141, 26, 158, 170, 229, 175, 215,
    241, 83, 245, 252, 87, 140, 79, 52, 240, 37, 9, 94, 217, 200, 247, 54,
    241, 4, 231, 127, 153, 228, 223, 105, 230, 71, 91, 120, 127, 43, 255, 87,
    193, 207, 182, 241, 155, 219, 121, 164, 131, 239, 234, 228, 15, 74, 254, 181,
    20, 239, 232, 226, 71, 210, 252, 199, 221, 252, 23, 138, 143, 101, 120, 73,
    15, 95, 213, 203, 183, 247, 241, 122, 205, 191, 154, 229, 79, 246, 243, 239,
    13, 240, 190, 65, 254, 83, 195, 63, 24, 226, 255, 155, 227, 120, 152, 111,
    30, 225, 251, 44, 127, 36, 207, 197, 40, 127, 126, 140, 31, 31, 231, 239,
    56, 110, 39, 248, 39, 147, 188, 108, 138, 111, 40, 129, 100, 97, 217, 87,
    205, 93, 230, 129, 196, 187, 225, 178, 89, 251, 221, 226, 214, 166, 111, 212,
    190, 118, 154, 181, 175, 206, 180, 150, 120, 101, 63, 179, 246, 248, 103, 214,
    6, 2, 81, 207, 102, 207, 150, 43, 74, 188, 102, 102, 18, 79, 151, 120,
    205, 52, 137, 87, 120, 159, 86, 2, 172, 2, 88, 237, 47, 21, 227, 174,
    226, 151, 182, 20, 191, 180, 179, 248, 37, 1, 72, 172, 13, 10, 90, 42,
    14, 148, 11, 129, 197, 225, 144, 208, 97, 113, 58, 34, 92, 133, 40, 35,
    34, 26, 21, 251, 99, 34, 89, 37, 158, 141, 139, 12, 21, 167, 106, 68,
    190, 86, 124, 90, 39, 194, 245, 98, 55, 19, 137, 6, 113, 40, 33, 186,
    26, 197, 219, 77, 34, 199, 197, 217, 164, 40, 109, 22, 27, 91, 68, 93,
    171, 120, 84, 136, 142, 54, 241, 74, 187, 24, 232, 16, 239, 119, 138, 41,
    41, 86, 165, 68, 188, 75, 252, 81, 90, 180, 118, 139, 23, 148, 232, 203,
    136, 127, 233, 17, 227, 189, 98, 81, 159, 32, 90, 236, 203, 10, 222, 47,
    158, 30, 16, 106, 80, 156, 52, 194, 14, 137, 115, 57, 17, 26, 22, 59,
    70, 68, 131, 21, 79, 228, 69, 106, 84, 188, 57, 38, 134, 198, 197, 71,
    78, 4, 39, 68, 229, 164, 168, 157, 18, 7, 75, 160, 173, 176, 236, 119,
    204, 93, 230, 129, 196, 181, 80, 252, 211, 168, 89, 179, 246, 251, 69, 172,
    61, 82, 196, 218, 191, 187, 82, 133, 92, 204, 218, 141, 179, 90, 235, 185,
    199, 19, 43, 112, 173, 229, 116, 177, 36, 94, 225, 179, 246, 162, 196, 97,
    175, 215, 90, 128, 59, 252, 248, 157, 254, 121, 58, 27, 46, 25, 249, 140,
    123, 138, 140, 239, 44, 50, 190, 247, 252, 209, 15, 146, 235, 131, 114, 95,
    169, 124, 172, 92, 74, 44, 79, 132, 228, 233, 176, 252, 36, 34, 67, 21,
    178, 154, 200, 135, 163, 242, 169, 152, 204, 84, 201, 127, 142, 203, 143, 168,
    92, 82, 35, 99, 181, 242, 15, 235, 228, 161, 122, 249, 125, 38, 251, 27,
    228, 175, 19, 50, 208, 40, 239, 106, 146, 117, 92, 126, 45, 41, 255, 166,
    89, 190, 213, 34, 135, 91, 229, 111, 132, 92, 213, 38, 247, 180, 203, 166,
    14, 249, 173, 78, 249, 170, 148, 63, 77, 201, 241, 46, 185, 52, 45, 183,
    117, 203, 175, 40, 41, 50, 242, 229, 30, 121, 178, 87, 158, 233, 147, 72,
    203, 13, 89, 185, 191, 95, 254, 197, 128, 76, 13, 202, 31, 25, 249, 222,
    144, 252, 159, 156, 12, 15, 203, 189, 35, 242, 160, 149, 207, 228, 101, 207,
    168, 252, 249, 152, 60, 59, 46, 111, 117, 178, 106, 66, 62, 52, 41, 255,
    122, 74, 30, 41, 129, 84, 97, 217, 43, 230, 46, 243, 64, 226, 7, 96,
    182, 172, 253, 222, 108, 21, 242, 75, 179, 101, 237, 15, 174, 49, 107, 255,
    127, 214, 158, 184, 104, 109, 32, 176, 213, 179, 45, 16, 120, 59, 16, 216,
    126, 253, 18, 111, 152, 45, 137, 167, 75, 28, 241, 18, 23, 166, 173, 247,
    39, 183, 133, 36, 174, 244, 221, 2, 119, 95, 104, 76, 39, 118, 201, 200,
    142, 217, 166, 237, 185, 208, 80, 128, 20, 9, 170, 194, 46, 85, 148, 43,
    133, 149, 9, 41, 23, 86, 161, 136, 170, 169, 80, 73, 162, 82, 81, 149,
    141, 169, 124, 149, 10, 198, 85, 140, 170, 68, 141, 106, 175, 85, 61, 117,
    42, 87, 175, 38, 153, 138, 52, 168, 186, 132, 106, 105, 84, 233, 38, 53,
    192, 213, 88, 82, 149, 55, 171, 120, 139, 106, 106, 85, 157, 66, 245, 181,
    169, 145, 118, 5, 29, 138, 116, 42, 38, 149, 72, 41, 213, 165, 76, 90,
    185, 110, 21, 82, 170, 38, 163, 146, 61, 42, 213, 171, 178, 125, 42, 175,
    85, 48, 171, 98, 253, 42, 49, 160, 218, 7, 85, 143, 81, 185, 33, 53,
    153, 83, 145, 97, 85, 55, 162, 90, 172, 74, 231, 213, 192, 168, 26, 27,
    83, 229, 227, 42, 238, 84, 211, 132, 234, 156, 84, 125, 83, 106, 164, 4,
    50, 133, 101, 191, 123, 238, 50, 15, 36, 78, 192, 13, 221, 215, 222, 248,
    172, 157, 102, 109, 129, 237, 158, 42, 207, 189, 5, 110, 96, 18, 95, 94,
    226, 117, 94, 226, 232, 52, 137, 137, 151, 56, 234, 63, 216, 138, 78, 35,
    54, 179, 27, 245, 18, 127, 110, 132, 78, 107, 107, 64, 122, 115, 80, 31,
    40, 213, 207, 149, 107, 141, 245, 153, 144, 46, 11, 235, 234, 136, 78, 86,
    232, 23, 137, 62, 21, 213, 31, 199, 116, 184, 74, 127, 57, 174, 15, 81,
    125, 180, 70, 231, 106, 245, 111, 235, 244, 198, 122, 253, 16, 211, 29, 13,
    250, 173, 132, 126, 191, 81, 47, 110, 210, 113, 174, 191, 154, 212, 47, 52,
    235, 127, 108, 209, 227, 173, 122, 165, 208, 251, 218, 244, 215, 219, 181, 234,
    208, 239, 118, 234, 115, 82, 111, 72, 233, 134, 46, 253, 84, 90, 191, 217,
    173, 127, 165, 116, 48, 163, 239, 237, 209, 7, 123, 245, 223, 246, 233, 126,
    173, 255, 61, 171, 111, 239, 215, 191, 63, 160, 91, 6, 245, 17, 163, 127,
    54, 164, 127, 147, 211, 21, 195, 250, 15, 70, 244, 147, 86, 191, 145, 215,
    35, 163, 122, 193, 152, 222, 54, 174, 31, 113, 90, 78, 232, 159, 76, 234,
    15, 167, 244, 178, 18, 200, 22, 150, 125, 203, 220, 101, 30, 72, 124, 16,
    102, 59, 249, 185, 166, 172, 61, 122, 163, 173, 125, 235, 50, 214, 6, 2,
    59, 60, 59, 61, 241, 27, 34, 241, 214, 171, 150, 248, 179, 36, 222, 58,
    77, 226, 141, 190, 27, 245, 31, 108, 109, 241, 229, 116, 204, 143, 76, 103,
    199, 204, 110, 245, 204, 174, 1, 100, 182, 5, 13, 47, 53, 135, 203, 141,
    193, 230, 92, 200, 68, 195, 230, 225, 136, 73, 85, 152, 83, 196, 76, 68,
    77, 101, 204, 36, 170, 204, 119, 226, 166, 159, 154, 179, 53, 38, 82, 107,
    30, 172, 51, 29, 245, 230, 199, 204, 140, 53, 152, 85, 9, 83, 223, 104,
    158, 108, 50, 125, 220, 124, 144, 52, 184, 217, 236, 107, 49, 162, 213, 28,
    23, 198, 182, 153, 178, 118, 83, 211, 97, 158, 232, 52, 25, 105, 222, 75,
    153, 96, 151, 217, 157, 54, 205, 221, 230, 7, 202, 228, 50, 38, 208, 99,
    170, 122, 205, 163, 125, 38, 173, 205, 207, 178, 102, 170, 223, 108, 25, 48,
    77, 131, 230, 5, 99, 6, 135, 204, 127, 231, 12, 25, 54, 7, 70, 140,
    180, 230, 100, 222, 184, 81, 179, 110, 204, 52, 140, 155, 103, 157, 201, 78,
    152, 143, 38, 77, 120, 202, 60, 80, 2, 67, 133, 101, 223, 62, 119, 153,
    7, 18, 55, 195, 204, 172, 61, 50, 51, 107, 63, 119, 242, 243, 202, 204,
    172, 61, 54, 211, 218, 215, 190, 136, 172, 253, 156, 181, 129, 64, 54, 16,
    216, 229, 217, 93, 224, 58, 37, 222, 49, 51, 137, 119, 92, 157, 196, 149,
    126, 230, 69, 137, 55, 249, 238, 116, 137, 11, 221, 109, 0, 219, 253, 151,
    37, 239, 245, 221, 139, 236, 158, 217, 221, 123, 254, 43, 141, 200, 238, 12,
    218, 199, 75, 237, 177, 114, 107, 177, 93, 22, 178, 251, 195, 246, 169, 136,
    205, 86, 216, 143, 137, 173, 140, 218, 63, 137, 217, 174, 42, 251, 243, 184,
    13, 80, 187, 171, 198, 182, 212, 218, 215, 234, 236, 251, 245, 118, 57, 179,
    245, 13, 246, 91, 9, 251, 15, 141, 246, 63, 155, 44, 225, 246, 145, 164,
    61, 220, 108, 223, 109, 177, 168, 213, 86, 11, 251, 68, 155, 125, 189, 221,
    230, 59, 236, 138, 78, 251, 128, 180, 207, 164, 108, 127, 151, 253, 175, 180,
    221, 216, 109, 255, 84, 217, 116, 198, 254, 162, 199, 46, 236, 181, 123, 250,
    108, 171, 182, 111, 100, 237, 7, 253, 118, 229, 128, 101, 131, 246, 57, 99,
    79, 14, 217, 79, 114, 54, 58, 108, 255, 108, 196, 190, 100, 237, 47, 243,
    54, 56, 106, 247, 142, 217, 67, 227, 246, 239, 157, 29, 157, 176, 171, 39,
    237, 131, 83, 246, 219, 37, 144, 47, 44, 123, 124, 238, 50, 15, 36, 62,
    4, 197, 173, 125, 101, 102, 133, 156, 153, 121, 94, 59, 61, 107, 167, 159,
    252, 188, 81, 220, 218, 19, 197, 173, 213, 197, 173, 141, 79, 183, 54, 16,
    168, 246, 80, 207, 158, 27, 85, 78, 87, 95, 93, 18, 87, 95, 82, 78,
    111, 188, 80, 78, 87, 79, 147, 184, 250, 18, 137, 119, 250, 35, 166, 93,
    254, 210, 69, 238, 243, 207, 14, 144, 163, 65, 39, 74, 157, 46, 119, 14,
    187, 104, 200, 37, 195, 46, 19, 113, 249, 10, 23, 38, 46, 17, 117, 93,
    49, 151, 171, 114, 165, 113, 87, 71, 93, 71, 141, 27, 168, 117, 83, 117,
    46, 94, 239, 90, 153, 235, 107, 112, 227, 9, 71, 26, 29, 111, 114, 138,
    59, 155, 116, 161, 102, 215, 208, 226, 82, 173, 110, 72, 184, 96, 155, 171,
    109, 119, 237, 29, 174, 191, 211, 77, 74, 87, 149, 114, 45, 93, 174, 55,
    237, 198, 186, 93, 133, 114, 77, 25, 215, 221, 227, 70, 122, 29, 238, 115,
    76, 59, 153, 117, 166, 223, 161, 1, 87, 51, 232, 218, 140, 203, 14, 185,
    137, 156, 139, 13, 187, 230, 17, 215, 99, 221, 104, 222, 69, 70, 93, 227,
    152, 75, 143, 187, 97, 231, 202, 39, 92, 253, 164, 235, 156, 114, 131, 37,
    48, 81, 88, 246, 61, 115, 151, 121, 32, 113, 59, 20, 207, 218, 98, 214,
    246, 20, 57, 249, 233, 157, 102, 237, 155, 215, 145, 181, 151, 179, 214, 115,
    159, 103, 111, 129, 255, 3, 83, 8, 82, 3, 35, 188, 82, 237, 0, 0,
    0, 0, 73, 69, 78, 68, 174, 66, 96, 130,
];
const STORED_RGBA_PNG: [u8; 94] = [
    137, 80, 78, 71, 13, 10, 26, 10, 0, 0, 0, 13, 73, 72, 68, 82,
    0, 0, 0, 3, 0, 0, 0, 2, 8, 6, 0, 0, 0, 157, 116, 102,
    26, 0, 0, 0, 37, 73, 68, 65, 84, 120, 1, 1, 26, 0, 229, 255,
    0, 10, 20, 30, 255, 40, 50, 60, 128, 70, 80, 90, 0, 2, 247, 238,
    229, 5, 221, 212, 203, 136, 195, 186, 177, 12, 120, 237, 11, 81, 103, 119,
    19, 187, 0, 0, 0, 0, 73, 69, 78, 68, 174, 66, 96, 130,
];
const FIXED_GREY_PNG: [u8; 85] = [
    137, 80, 78, 71, 13, 10, 26, 10, 0, 0, 0, 13, 73, 72, 68, 82,
    0, 0, 0, 4, 0, 0, 0, 4, 8, 0, 0, 0, 0, 140, 154, 193,
    162, 0, 0, 0, 28, 73, 68, 65, 84, 120, 1, 99, 100, 112, 112, 168,
    103, 102, 124, 116, 168, 153, 229, 56, 3, 3, 3, 147, 163, 131, 189, 29,
    0, 52, 247, 4, 247, 58, 236, 245, 51, 0, 0, 0, 0, 73, 69, 78,
    68, 174, 66, 96, 130,
];

fn distinct_colors(dst: &[u32]) -> usize {
    let mut set = HashSet::new();
    let mut i = 0usize;
    while i < dst.len() {
        set.insert(dst[i]);
        i += 997;
    }
    set.len()
}

#[test]
fn bmp_smoke() {
    let mut bmp = vec![0u8; 54 + 4 * 4];
    bmp[0] = b'B';
    bmp[1] = b'M';
    bmp[10] = 54;
    bmp[18] = 2;
    bmp[22] = 2;
    bmp[28] = 24;
    bmp[54] = 10;
    bmp[55] = 20;
    bmp[56] = 30;
    let mut dst = vec![0u32; 2 * 2];
    assert!(decode_bmp(&bmp, &mut dst, 2, 2));
    assert_eq!(dst[2], (30u32 << 16) | (20u32 << 8) | 10);
}

#[test]
fn png_wallpapers_decode() {
    for (name, data) in [("gradient", &GRADIENT_PNG[..])] {
        let mut dst = vec![0u32; 1280 * 800];
        assert!(decode_png(data, &mut dst, 1280, 800), "{name} decoded");
        let colors = distinct_colors(&dst);
        assert!(colors > 100, "{name} has only {colors} colors");
    }
}

#[test]
fn draw_end_to_end() {
    let mut wp = Wallpaper::new();
    set_path(&mut wp, b"/w/test.png");
    assert!(has_path(&wp));
    assert_eq!(draw(&mut wp, true, 640, 480, 0), DrawStep::Load);
    let picture = decode_image(&GRADIENT_PNG, 640, 480);
    assert!(picture.is_some());
    assert!(finish_load(&mut wp, 640, 480, picture));
    assert!(wp.cache.iter().any(|&p| p != 0), "framebuffer stayed black");
    assert_eq!(draw(&mut wp, true, 640, 480, 10), DrawStep::BlitCache, "cache-hit redraw");
}

#[test]
fn corrupt_rejected() {
    let mut dst = vec![0u32; 320 * 200];
    assert!(!decode_png(&[0u8; 100], &mut dst, 320, 200));
    assert!(!decode_png(&GRADIENT_PNG[..1000], &mut dst, 320, 200));
    assert!(!decode_png(b"definitely not a png at all.............", &mut dst, 320, 200));
}

#[test]
fn png_gradient_exact_pixels() {
    let mut dst = vec![0u32; 64 * 64];
    assert!(decode_png(&GRADIENT_PNG, &mut dst, 64, 64));
    for y in 0..64u32 {
        for x in 0..64u32 {
            let expected = ((x * 4) << 16) | ((y * 4) << 8) | ((x * y) & 255);
            assert_eq!(dst[(y * 64 + x) as usize], expected);
        }
    }
}

#[test]
fn png_gradient_scaled_down() {
    let mut dst = vec![0u32; 16 * 8];
    assert!(decode_png(&GRADIENT_PNG, &mut dst, 16, 8));
    // destination (3, 5) samples source (3 * 64 / 16, 5 * 64 / 8) = (12, 40)
    let expected = ((12u32 * 4) << 16) | ((40u32 * 4) << 8) | ((12 * 40) & 255);
    assert_eq!(dst[5 * 16 + 3], expected);
}

#[test]
fn png_stored_rgba() {
    let mut dst = vec![0u32; 3 * 2];
    assert!(decode_png(&STORED_RGBA_PNG, &mut dst, 3, 2));
    assert_eq!(dst, vec![0x0A141E, 0x28323C, 0x46505A, 0x010203, 0x050607, 0x090A0B]);
}

#[test]
fn png_fixed_huffman_grey() {
    let mut dst = vec![0u32; 4 * 4];
    assert!(decode_png(&FIXED_GREY_PNG, &mut dst, 4, 4));
    let grey = |v: u32| (v << 16) | (v << 8) | v;
    assert_eq!(dst[1], grey(64));
    assert_eq!(dst[3], grey(255));
    assert_eq!(dst[4 + 2], grey(3));
    assert_eq!(dst[8], grey(200));
    assert_eq!(dst[15], grey(6));
}

#[test]
fn png_bad_checksum_rejected() {
    let mut data = STORED_RGBA_PNG.to_vec();
    // the last byte of the zlib stream (Adler-32) sits before the IDAT CRC and IEND
    let n = data.len();
    let adler_last = n - 12 - 4 - 1;
    data[adler_last] ^= 0xFF;
    let mut dst = vec![0u32; 3 * 2];
    assert!(!decode_png(&data, &mut dst, 3, 2));
}

#[test]
fn png_zero_destination_rejected() {
    let mut dst = vec![0u32; 4];
    assert!(!decode_png(&STORED_RGBA_PNG, &mut dst, 0, 2));
}

#[test]
fn inflate_stored_and_adler() {
    // zlib stream of "abc" in one stored block
    let input = [0x78u8, 0x01, 0x01, 0x03, 0x00, 0xFC, 0xFF, b'a', b'b', b'c', 0x02, 0x4D, 0x01, 0x27];
    let mut out = vec![0u8; 16];
    assert_eq!(inflate(&input, &mut out), Some(3));
    assert_eq!(&out[..3], b"abc");
    assert_eq!(adler32_of(&out, 3), 0x024D0127);
}

#[test]
fn inflate_rejects_bad_header() {
    let input = [0x78u8, 0x02, 0x01, 0x03, 0x00, 0xFC, 0xFF, b'a', b'b', b'c', 0x02, 0x4D, 0x01, 0x27];
    let mut out = vec![0u8; 16];
    assert_eq!(inflate(&input, &mut out), None);
}

#[test]
fn inflate_output_too_small() {
    let input = [0x78u8, 0x01, 0x01, 0x03, 0x00, 0xFC, 0xFF, b'a', b'b', b'c', 0x02, 0x4D, 0x01, 0x27];
    let mut out = vec![0u8; 2];
    assert_eq!(inflate(&input, &mut out), None);
}

#[test]
fn paeth_predictor() {
    assert_eq!(paeth(10, 20, 10), 20);
    assert_eq!(paeth(20, 10, 10), 20);
    assert_eq!(paeth(5, 5, 5), 5);
    assert_eq!(paeth(100, 50, 200), 50);
}

#[test]
fn ppm_decodes() {
    let mut data = b"P6\n# test\n2 1\n255\n".to_vec();
    data.extend_from_slice(&[1, 2, 3, 4, 5, 6]);
    let mut dst = vec![0u32; 2];
    assert!(decode_ppm(&data, &mut dst, 2, 1));
    assert_eq!(dst, vec![0x010203, 0x040506]);
}

#[test]
fn ppm_truncated_rejected() {
    let mut data = b"P6 2 1 255 ".to_vec();
    data.extend_from_slice(&[1, 2, 3, 4, 5, 6]);
    let mut dst = vec![0u32; 4];
    assert!(decode_ppm(&data, &mut dst, 2, 1));
    assert!(!decode_ppm(&data[..data.len() - 1], &mut dst, 2, 1));
}

#[test]
fn bmp_rejects_wrong_magic() {
    let mut bmp = vec![0u8; 54 + 16];
    bmp[0] = b'X';
    bmp[1] = b'M';
    bmp[10] = 54;
    bmp[18] = 2;
    bmp[22] = 2;
    bmp[28] = 24;
    let mut dst = vec![0u32; 4];
    assert!(!decode_bmp(&bmp, &mut dst, 2, 2));
}

#[test]
fn bmp_bottom_up_and_scaling() {
    // 2x2, 24 bits, bottom-up: the first stored row is the bottom row
    let mut bmp = vec![0u8; 54 + 16];
    bmp[0] = b'B';
    bmp[1] = b'M';
    bmp[10] = 54;
    bmp[18] = 2;
    bmp[22] = 2;
    bmp[28] = 24;
    bmp[54..60].copy_from_slice(&[1, 2, 3, 4, 5, 6]);
    bmp[62..68].copy_from_slice(&[7, 8, 9, 10, 11, 12]);
    let mut dst = vec![0u32; 4 * 4];
    assert!(decode_bmp(&bmp, &mut dst, 4, 4));
    assert_eq!(dst[0], 0x090807);
    assert_eq!(dst[3], 0x0C0B0A);
    assert_eq!(dst[15], 0x060504);
    assert_eq!(dst[8], 0x030201);
}

#[test]
fn decode_image_prefers_formats_in_order() {
    let mut data = b"P6   1 1 255 ".to_vec();
    data.extend_from_slice(&[9, 8, 7]);
    assert_eq!(decode_image(&data, 2, 1), Some(vec![0x090807, 0x090807]));
    assert_eq!(decode_image(&data, 0, 1), None);
    assert_eq!(decode_image(b"garbage!", 2, 2), None);
}

#[test]
fn wallpaper_retry_after_failure() {
    let mut wp = Wallpaper::new();
    assert_eq!(draw(&mut wp, true, 10, 10, 0), DrawStep::Nothing);
    set_path(&mut wp, b"/w/missing.png");
    assert_eq!(draw(&mut wp, false, 10, 10, 0), DrawStep::Nothing);
    assert_eq!(draw(&mut wp, true, 10, 10, 100), DrawStep::Load);
    assert!(!finish_load(&mut wp, 10, 10, None));
    assert_eq!(draw(&mut wp, true, 10, 10, 4000), DrawStep::Nothing);
    assert_eq!(draw(&mut wp, true, 10, 10, 5100), DrawStep::Load);
}

fn adler(data: &[u8]) -> u32 {
    let (mut a, mut b) = (1u32, 0u32);
    for &x in data {
        a = (a + x as u32) % 65521;
        b = (b + a) % 65521;
    }
    (b << 16) | a
}

fn zlib_stored(payload: &[u8]) -> Vec<u8> {
    let len = payload.len() as u16;
    let mut z = vec![0x78, 0x01, 0x01, (len & 0xff) as u8, (len >> 8) as u8, (!len & 0xff) as u8, (!len >> 8) as u8];
    z.extend_from_slice(payload);
    z.extend_from_slice(&adler(payload).to_be_bytes());
    z
}

#[test]
fn stored_stream_inflates_to_payload() {
    let payload: Vec<u8> = (0..300u32).map(|i| (i * 7 % 251) as u8).collect();
    let mut out = vec![0u8; 400];
    assert_eq!(inflate(&zlib_stored(&payload), &mut out), Some(300));
    assert_eq!(&out[..300], &payload[..]);
    let mut small = vec![0u8; 299];
    assert_eq!(inflate(&zlib_stored(&payload), &mut small), None);
    let mut empty_out = vec![0u8; 0];
    assert_eq!(inflate(&zlib_stored(&[]), &mut empty_out), Some(0));
}

#[test]
fn failed_png_leaves_destination() {
    let mut dst = vec![7u32; 320 * 200];
    assert!(!decode_png(&[0u8; 100], &mut dst, 320, 200));
    assert!(!decode_png(&GRADIENT_PNG[..1000], &mut dst, 320, 200));
    assert!(dst.iter().all(|&v| v == 7));
}

#[test]
fn png_leaves_entries_past_the_image() {
    let mut dst = vec![7u32; 3 * 2 + 5];
    assert!(decode_png(&STORED_RGBA_PNG, &mut dst, 3, 2));
    assert_eq!(&dst[..6], &[0x0A141E, 0x28323C, 0x46505A, 0x010203, 0x050607, 0x090A0B]);
    assert!(dst[6..].iter().all(|&v| v == 7));
}

#[test]
fn ppm_failure_writes_only_the_readable_prefix() {
    // 2x1 image whose second pixel is cut short: the first pixel is written, the rest kept
    let mut data = b"P6 2 1 255 ".to_vec();
    data.extend_from_slice(&[1, 2, 3, 4, 5]);
    let mut dst = vec![9u32; 4];
    assert!(!decode_ppm(&data, &mut dst, 2, 1));
    assert_eq!(dst, vec![0x010203, 9, 9, 9]);
}

#[test]
fn inflate_bad_header_leaves_output() {
    let input = [0x78u8, 0x02, 0x01, 0x03, 0x00, 0xFC, 0xFF, b'a', b'b', b'c', 0x02, 0x4D, 0x01, 0x27];
    let mut out = vec![5u8; 16];
    assert_eq!(inflate(&input, &mut out), None);
    assert_eq!(out, vec![5u8; 16]);
}

#[test]
fn inflate_leaves_bytes_past_output() {
    let input = [0x78u8, 0x01, 0x01, 0x03, 0x00, 0xFC, 0xFF, b'a', b'b', b'c', 0x02, 0x4D, 0x01, 0x27];
    let mut out = vec![5u8; 8];
    assert_eq!(inflate(&input, &mut out), Some(3));
    assert_eq!(out, vec![b'a', b'b', b'c', 5, 5, 5, 5, 5]);
}

#[test]
fn bits_read_twenty_five_at_once() {
    let data = [0xA5u8, 0xFF, 0x00, 0x81, 0x42];
    let mut br = BitReader { data: &data, byte_pos: 0, bit_buf: 0, bit_count: 0 };
    let mut out = 0u32;
    assert!(br_bits(&mut br, 25, &mut out));
    assert_eq!(out, 0x0100FFA5);
    assert_eq!(br.bit_count, 7);
    assert!(br_bits(&mut br, 15, &mut out));
    assert_eq!(out, (0x4281u32 >> 1) & 0x7FFF);
    let mut kept = 123u32;
    assert!(!br_bits(&mut br, 1, &mut kept));
    assert_eq!(kept, 123);
}

#[test]
fn canonical_codes_decode_to_their_symbols() {
    // lengths (3, 3, 3, 3, 3, 2, 4, 4) give A=010 B=011 C=100 D=101 E=110 F=00 G=1110 H=1111
    let mut h = Huff::new();
    assert!(huff_build(&mut h, &[3, 3, 3, 3, 3, 2, 4, 4]));
    // F G A H, each code most significant bit first, packed from the lowest bit of each byte
    let data = [0x9Cu8, 0x1E];
    let mut br = BitReader { data: &data, byte_pos: 0, bit_buf: 0, bit_count: 0 };
    assert_eq!(huff_decode(&mut br, &h), Some(5));
    assert_eq!(huff_decode(&mut br, &h), Some(6));
    assert_eq!(huff_decode(&mut br, &h), Some(0));
    assert_eq!(huff_decode(&mut br, &h), Some(7));
    assert_eq!(br.byte_pos * 8 - br.bit_count as usize, 13);
}
